use vstd::prelude::*;

use crate::paths::{join, path_join};
use crate::text::{
    append_chars, chars_of, contains_chars, decimal, decimal_chars, has_sub, lemma_find_char,
    lemma_split_nonempty, split_char, split_on, string_of, views,
};

verus! {

/// The marker of a file that `mktemp` created: `/tmp/tmp.`.
pub open spec fn tmp_marker() -> Seq<char> {
    seq!['/', 't', 'm', 'p', '/', 't', 'm', 'p', '.']
}

fn tmp_marker_chars() -> (v: Vec<char>)
    ensures
        v@ == tmp_marker(),
{
    let mut v: Vec<char> = Vec::new();
    v.push('/');
    v.push('t');
    v.push('m');
    v.push('p');
    v.push('/');
    v.push('t');
    v.push('m');
    v.push('p');
    v.push('.');
    assert(v@ =~= tmp_marker());
    v
}

/// The unique parts of the temporary files named on the lines `ls`: of each line that
/// holds `/tmp/tmp.`, the text between its first and its second `.`.
pub open spec fn tmp_hashes(ls: Seq<Seq<char>>) -> Seq<Seq<char>>
    decreases ls.len(),
{
    if ls.len() == 0 {
        Seq::empty()
    } else {
        let rest = tmp_hashes(ls.drop_last());
        if has_sub(ls.last(), tmp_marker()) {
            rest.push(split_char(ls.last(), '.')[1])
        } else {
            rest
        }
    }
}

/// The remote command that creates `amount` temporary files:
/// `for i in $(seq 1 <amount>); do mktemp; done`.
pub fn mktemp_command(amount: usize) -> (s: String)
    ensures
        s@ == "for i in $(seq 1 "@ + decimal(amount as nat) + "); do mktemp; done"@,
{
    let mut v = chars_of("for i in $(seq 1 ");
    let n = decimal_chars(amount);
    append_chars(&mut v, &n);
    let tail = chars_of("); do mktemp; done");
    append_chars(&mut v, &tail);
    string_of(&v)
}

/// Reads what the remote `mktemp` loop printed: the unique part of each temporary file
/// name (`/tmp/tmp.<hash>`), and the command that removes the files again (`rm ` followed
/// by the output with its line breaks turned into spaces).
pub fn get_hash_titan(stdout: &str) -> (r: (Vec<String>, String))
    ensures
        r.0@.map_values(|s: String| s@) == tmp_hashes(split_char(stdout@, '\n')),
        r.1@ == "rm "@ + stdout@.map_values(|c: char| if c == '\n' { ' ' } else { c }),
{
    let chars = chars_of(stdout);
    let lines = split_on(&chars, '\n');
    let ghost lv = split_char(stdout@, '\n');
    let marker = tmp_marker_chars();
    let mut hashes: Vec<String> = Vec::new();
    let mut i: usize = 0;
    assert(lv.take(0) =~= Seq::<Seq<char>>::empty());
    assert(hashes@.map_values(|s: String| s@) =~= Seq::<Seq<char>>::empty());
    while i < lines.len()
        invariant
            views(lines@) == lv,
            marker@ == tmp_marker(),
            i <= lines.len(),
            hashes@.map_values(|s: String| s@) == tmp_hashes(lv.take(i as int)),
        decreases lines.len() - i,
    {
        let line = &lines[i];
        assert(line@ == lv[i as int]);
        assert(lv.take(i + 1).drop_last() == lv.take(i as int));
        assert(lv.take(i + 1).last() == lv[i as int]);
        if contains_chars(line, &marker) {
            proof {
                let k = choose|k: int| crate::text::occurs_at(line@, tmp_marker(), k);
                assert(line@.subrange(k, k + 9)[8] == '.');
                lemma_find_char(line@, '.');
                lemma_split_nonempty(line@, '.');
            }
            let parts = split_on(line, '.');
            assert(views(parts@)[1] == parts@[1]@);
            let h = string_of(&parts[1]);
            let ghost h0 = hashes@;
            hashes.push(h);
            assert(hashes@.map_values(|s: String| s@) =~= h0.map_values(|s: String| s@).push(h@));
        }
        i += 1;
    }
    assert(lv.take(i as int) == lv);
    let mut rm = chars_of("rm ");
    let ghost rm0 = rm@;
    let mut j: usize = 0;
    while j < chars.len()
        invariant
            j <= chars.len(),
            chars@ == stdout@,
            rm@ == rm0 + chars@.take(j as int).map_values(|c: char| if c == '\n' { ' ' } else { c }),
        decreases chars.len() - j,
    {
        let c = chars[j];
        if c == '\n' {
            rm.push(' ');
        } else {
            rm.push(c);
        }
        j += 1;
        assert(chars@.take(j as int).map_values(|c: char| if c == '\n' { ' ' } else { c })
            =~= chars@.take(j - 1).map_values(|c: char| if c == '\n' { ' ' } else { c }).push(
            if c == '\n' { ' ' } else { c }));
    }
    assert(chars@.take(j as int) == chars@);
    (hashes, string_of(&rm))
}

/// The shell command that copies `src_path` to `dst_path` on the cluster.
pub fn send_files_command(src_path: &str, dst_path: &str) -> (r: String)
    ensures
        r@ == "scp -r "@ + src_path@ + " titan:"@ + dst_path@,
{
    let mut c = chars_of("scp -r ");
    append_chars(&mut c, &chars_of(src_path));
    append_chars(&mut c, &chars_of(" titan:"));
    append_chars(&mut c, &chars_of(dst_path));
    string_of(&c)
}

/// Where files are fetched from on the cluster: `titan:<src_path>`.
pub fn remote_source(src_path: &str) -> (r: String)
    ensures
        r@ == "titan:"@ + src_path@,
{
    let mut c = chars_of("titan:");
    append_chars(&mut c, &chars_of(src_path));
    string_of(&c)
}

/// The shell command that empties the directory `dir_path`.
pub fn clean_dir_command(dir_path: &str) -> (r: String)
    ensures
        r@ == "rm -r "@ + path_join(dir_path@, "*"@),
{
    let mut c = chars_of("rm -r ");
    append_chars(&mut c, &chars_of(join(dir_path, "*").as_str()));
    string_of(&c)
}

} // verus!
