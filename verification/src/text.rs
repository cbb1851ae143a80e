use vstd::prelude::*;

verus! {

/// The characters of `s`, in order.
pub fn chars_of(s: &str) -> (v: Vec<char>)
    ensures
        v@ == s@,
{
    let mut v: Vec<char> = Vec::new();
    for c in it: s.chars()
        invariant
            v@ == it.seq().take(it.index()),
    {
        v.push(c);
    }
    v
}

/// Index of the first occurrence of `c` in `s`.
pub open spec fn find_char(s: Seq<char>, c: char) -> Option<nat>
    decreases s.len(),
{
    if s.len() == 0 {
        None
    } else if s[0] == c {
        Some(0)
    } else {
        match find_char(s.drop_first(), c) {
            Some(i) => Some(i + 1),
            None => None,
        }
    }
}

pub proof fn lemma_find_char(s: Seq<char>, c: char)
    ensures
        match find_char(s, c) {
            Some(i) => i < s.len() && s[i as int] == c && forall|j: int| 0 <= j < i ==> s[j] != c,
            None => forall|j: int| 0 <= j < s.len() ==> s[j] != c,
        },
    decreases s.len(),
{
    if s.len() > 0 && s[0] != c {
        lemma_find_char(s.drop_first(), c);
        match find_char(s.drop_first(), c) {
            Some(i) => {
                assert forall|j: int| 0 <= j < i + 1 implies s[j] != c by {
                    if j > 0 {
                        assert(s[j] == s.drop_first()[j - 1]);
                    }
                }
            },
            None => {
                assert forall|j: int| 0 <= j < s.len() implies s[j] != c by {
                    if j > 0 {
                        assert(s[j] == s.drop_first()[j - 1]);
                    }
                }
            },
        }
    }
}

/// `find_char` is determined by the first position holding `c`.
pub proof fn lemma_find_char_at(s: Seq<char>, c: char, k: int)
    requires
        0 <= k < s.len(),
        s[k] == c,
        forall|j: int| 0 <= j < k ==> s[j] != c,
    ensures
        find_char(s, c) == Some(k as nat),
{
    lemma_find_char(s, c);
}

pub proof fn lemma_find_char_none(s: Seq<char>, c: char)
    requires
        forall|j: int| 0 <= j < s.len() ==> s[j] != c,
    ensures
        find_char(s, c) is None,
{
    lemma_find_char(s, c);
}

/// The pieces of `s` between occurrences of `d` (as `str::split` with a char pattern).
pub open spec fn split_char(s: Seq<char>, d: char) -> Seq<Seq<char>>
    decreases s.len(),
{
    match find_char(s, d) {
        None => seq![s],
        Some(i) => {
            if i < s.len() {
                seq![s.take(i as int)] + split_char(s.skip(i + 1 as int), d)
            } else {
                seq![s]
            }
        },
    }
}

pub open spec fn views(v: Seq<Vec<char>>) -> Seq<Seq<char>> {
    v.map_values(|x: Vec<char>| x@)
}

/// Characters `lo..hi` of `s`.
pub fn slice_of(s: &Vec<char>, lo: usize, hi: usize) -> (r: Vec<char>)
    requires
        lo <= hi <= s.len(),
    ensures
        r@ == s@.subrange(lo as int, hi as int),
{
    let mut r: Vec<char> = Vec::new();
    let mut i = lo;
    while i < hi
        invariant
            lo <= i <= hi <= s.len(),
            r@ == s@.subrange(lo as int, i as int),
        decreases hi - i,
    {
        r.push(s[i]);
        i += 1;
    }
    r
}

/// Position of the first `c` in `s[lo..hi]`, counted from the start of `s`.
pub fn find_in(s: &Vec<char>, lo: usize, hi: usize, c: char) -> (r: Option<usize>)
    requires
        lo <= hi <= s.len(),
    ensures
        match r {
            Some(k) => lo <= k < hi && find_char(s@.subrange(lo as int, hi as int), c) == Some((k - lo) as nat),
            None => find_char(s@.subrange(lo as int, hi as int), c) is None,
        },
{
    let mut i = lo;
    while i < hi
        invariant
            lo <= i <= hi <= s.len(),
            forall|j: int| lo <= j < i ==> s@[j] != c,
        decreases hi - i,
    {
        if s[i] == c {
            proof {
                lemma_find_char_at(s@.subrange(lo as int, hi as int), c, i - lo);
            }
            return Some(i);
        }
        i += 1;
    }
    proof {
        lemma_find_char_none(s@.subrange(lo as int, hi as int), c);
    }
    None
}

/// `split_char` always yields at least one piece, and two when `d` occurs.
pub proof fn lemma_split_nonempty(s: Seq<char>, d: char)
    ensures
        split_char(s, d).len() >= 1,
        split_char(s, d)[0] == match find_char(s, d) {
            Some(i) => s.take(i as int),
            None => s,
        },
        find_char(s, d) is Some ==> split_char(s, d).len() >= 2,
    decreases s.len(),
{
    lemma_find_char(s, d);
    match find_char(s, d) {
        Some(i) => {
            lemma_split_nonempty(s.skip(i + 1 as int), d);
        },
        None => {},
    }
}

proof fn lemma_split_step(s: Seq<char>, d: char, k: int)
    requires
        0 <= k < s.len(),
        s[k] == d,
        forall|j: int| 0 <= j < k ==> s[j] != d,
    ensures
        split_char(s, d) == seq![s.take(k)] + split_char(s.skip(k + 1), d),
{
    lemma_find_char_at(s, d, k);
}

proof fn lemma_split_last(s: Seq<char>, d: char)
    requires
        forall|j: int| 0 <= j < s.len() ==> s[j] != d,
    ensures
        split_char(s, d) == seq![s],
{
    lemma_find_char_none(s, d);
}

/// `s` cut at every `d`.
pub fn split_on(s: &Vec<char>, d: char) -> (r: Vec<Vec<char>>)
    ensures
        views(r@) == split_char(s@, d),
{
    let mut r: Vec<Vec<char>> = Vec::new();
    let mut start: usize = 0;
    let mut i: usize = 0;
    proof {
        assert(s@.skip(0) =~= s@);
        assert(views(r@) =~= Seq::<Seq<char>>::empty());
    }
    while i < s.len()
        invariant
            start <= i <= s.len(),
            forall|j: int| start <= j < i ==> s@[j] != d,
            split_char(s@, d) == views(r@) + split_char(s@.skip(start as int), d),
        decreases s.len() - i,
    {
        if s[i] == d {
            let piece = slice_of(s, start, i);
            proof {
                let t = s@.skip(start as int);
                lemma_split_step(t, d, i - start);
                assert(t.take(i - start) == s@.subrange(start as int, i as int));
                assert(t.skip(i - start + 1) == s@.skip(i + 1));
                assert(views(r@.push(piece)) == views(r@).push(piece@));
            }
            r.push(piece);
            start = i + 1;
        }
        i += 1;
    }
    let last = slice_of(s, start, s.len());
    proof {
        let t = s@.skip(start as int);
        lemma_split_last(t, d);
        assert(t == last@);
        assert(views(r@.push(last)) == views(r@).push(last@));
    }
    r.push(last);
    r
}

/// Whether two character sequences are equal.
pub fn same_chars(a: &Vec<char>, b: &Vec<char>) -> (r: bool)
    ensures
        r == (a@ == b@),
{
    if a.len() != b.len() {
        return false;
    }
    let mut i: usize = 0;
    while i < a.len()
        invariant
            a.len() == b.len(),
            i <= a.len(),
            forall|j: int| 0 <= j < i ==> a@[j] == b@[j],
        decreases a.len() - i,
    {
        if a[i] != b[i] {
            return false;
        }
        i += 1;
    }
    assert(a@ =~= b@);
    true
}


/// Whether `c` is an ASCII decimal digit.
pub open spec fn is_digit(c: char) -> bool {
    '0' <= c && c <= '9'
}

/// The value of the decimal digits `d` (most significant first).
pub open spec fn digits_value(d: Seq<char>) -> nat
    decreases d.len(),
{
    if d.len() == 0 {
        0
    } else {
        digits_value(d.drop_last()) * 10 + ((d.last() as int) - ('0' as int)) as nat
    }
}

/// What `usize::from_str` accepts: an optional `+` followed by at least one digit,
/// with a value that fits in `usize`.
pub open spec fn parse_usize_spec(s: Seq<char>) -> Option<usize> {
    let d = if s.len() > 0 && s[0] == '+' { s.drop_first() } else { s };
    if d.len() > 0 && (forall|i: int| 0 <= i < d.len() ==> is_digit(#[trigger] d[i]))
        && digits_value(d) <= usize::MAX {
        Some(digits_value(d) as usize)
    } else {
        None
    }
}

#[verifier::external_type_specification]
#[verifier::external_body]
pub struct ExParseIntError(std::num::ParseIntError);

/// Calls `usize::from_str` on the text `v`. Its documentation states that the text must be an
/// optional `+` sign followed only by decimal digits, and that the value must fit in the
/// type; otherwise it returns an error. This contract restates that; which kind of
/// `ParseIntError` comes back is left unsaid.
#[verifier::external_body]
pub(crate) fn parse_usize(v: &Vec<char>) -> (r: Result<usize, std::num::ParseIntError>)
    ensures
        r is Ok <==> parse_usize_spec(v@) is Some,
        r matches Ok(n) ==> parse_usize_spec(v@) == Some(n),
{
    let s: String = v.iter().collect();
    <usize as std::str::FromStr>::from_str(&s)
}

/// The character of the decimal digit `d`.
pub open spec fn digit_char(d: nat) -> char {
    if d == 0 { '0' } else if d == 1 { '1' } else if d == 2 { '2' } else if d == 3 { '3' }
    else if d == 4 { '4' } else if d == 5 { '5' } else if d == 6 { '6' } else if d == 7 { '7' }
    else if d == 8 { '8' } else { '9' }
}

/// The decimal text of `n`, without leading zeros (as `n.to_string()`).
pub open spec fn decimal(n: nat) -> Seq<char>
    decreases n,
{
    if n < 10 {
        seq![digit_char(n)]
    } else {
        decimal(n / 10).push(digit_char(n % 10))
    }
}

fn digit_of(d: usize) -> (c: char)
    requires
        d < 10,
    ensures
        c == digit_char(d as nat),
{
    if d == 0 { '0' } else if d == 1 { '1' } else if d == 2 { '2' } else if d == 3 { '3' }
    else if d == 4 { '4' } else if d == 5 { '5' } else if d == 6 { '6' } else if d == 7 { '7' }
    else if d == 8 { '8' } else { '9' }
}

/// The decimal text of `n`.
pub fn decimal_chars(n: usize) -> (r: Vec<char>)
    ensures
        r@ == decimal(n as nat),
    decreases n,
{
    if n < 10 {
        let mut r: Vec<char> = Vec::new();
        r.push(digit_of(n));
        r
    } else {
        let mut r = decimal_chars(n / 10);
        r.push(digit_of(n % 10));
        r
    }
}

/// The decimal text of a 64-bit `n`.
pub fn decimal_chars_u64(n: u64) -> (r: Vec<char>)
    ensures
        r@ == decimal(n as nat),
    decreases n,
{
    if n < 10 {
        let mut r: Vec<char> = Vec::new();
        r.push(digit_of(n as usize));
        r
    } else {
        let mut r = decimal_chars_u64(n / 10);
        r.push(digit_of((n % 10) as usize));
        r
    }
}

/// The character of the hexadecimal digit `d`, in lower case.
pub open spec fn hex_digit(d: nat) -> char {
    if d < 10 { digit_char(d) } else if d == 10 { 'a' } else if d == 11 { 'b' } else if d == 12 { 'c' }
    else if d == 13 { 'd' } else if d == 14 { 'e' } else { 'f' }
}

/// The lower-case hexadecimal text of `n`, without leading zeros (as `format!("{:x}", n)`).
pub open spec fn lower_hex(n: nat) -> Seq<char>
    decreases n,
{
    if n < 16 {
        seq![hex_digit(n)]
    } else {
        lower_hex(n / 16).push(hex_digit(n % 16))
    }
}

fn hex_digit_of(d: u64) -> (c: char)
    requires
        d < 16,
    ensures
        c == hex_digit(d as nat),
{
    if d < 10 { digit_of(d as usize) } else if d == 10 { 'a' } else if d == 11 { 'b' } else if d == 12 { 'c' }
    else if d == 13 { 'd' } else if d == 14 { 'e' } else { 'f' }
}

/// The lower-case hexadecimal text of `n`.
pub fn lower_hex_chars(n: u64) -> (r: Vec<char>)
    ensures
        r@ == lower_hex(n as nat),
    decreases n,
{
    if n < 16 {
        let mut r: Vec<char> = Vec::new();
        r.push(hex_digit_of(n));
        r
    } else {
        let mut r = lower_hex_chars(n / 16);
        r.push(hex_digit_of(n % 16));
        r
    }
}

/// Appends the characters of `b` to `a`.
pub fn append_chars(a: &mut Vec<char>, b: &Vec<char>)
    ensures
        final(a)@ == old(a)@ + b@,
{
    let mut i: usize = 0;
    let ghost a0 = a@;
    while i < b.len()
        invariant
            i <= b.len(),
            a@ == a0 + b@.take(i as int),
        decreases b.len() - i,
    {
        a.push(b[i]);
        i += 1;
        proof {
            assert(b@.take(i as int) == b@.take(i - 1).push(b@[i - 1]));
        }
    }
    assert(b@.take(b.len() as int) =~= b@);
}

/// The text of the characters `v` (collects them into a `String`; std's
/// `FromIterator<char>` for `String` keeps the characters in order).
#[verifier::external_body]
pub(crate) fn string_of(v: &Vec<char>) -> (s: String)
    ensures
        s@ == v@,
{
    v.iter().collect()
}


/// Unicode `White_Space`, which `char::is_whitespace` tests.
pub open spec fn is_ws(c: char) -> bool {
    let u = c as u32;
    ||| (9 <= u && u <= 13)
    ||| u == 32
    ||| u == 0x85
    ||| u == 0xa0
    ||| u == 0x1680
    ||| (0x2000 <= u && u <= 0x200a)
    ||| u == 0x2028
    ||| u == 0x2029
    ||| u == 0x202f
    ||| u == 0x205f
    ||| u == 0x3000
}

/// Whether `c` is Unicode white space.
pub fn is_whitespace(c: char) -> (r: bool)
    ensures
        r == is_ws(c),
{
    let u = c as u32;
    (9 <= u && u <= 13) || u == 32 || u == 0x85 || u == 0xa0 || u == 0x1680 || (0x2000 <= u && u
        <= 0x200a) || u == 0x2028 || u == 0x2029 || u == 0x202f || u == 0x205f || u == 0x3000
}

/// `s` without its leading white space.
pub open spec fn trim_start(s: Seq<char>) -> Seq<char>
    decreases s.len(),
{
    if s.len() > 0 && is_ws(s[0]) {
        trim_start(s.drop_first())
    } else {
        s
    }
}

/// `s` without its trailing white space.
pub open spec fn trim_end(s: Seq<char>) -> Seq<char>
    decreases s.len(),
{
    if s.len() > 0 && is_ws(s.last()) {
        trim_end(s.drop_last())
    } else {
        s
    }
}

/// `s` without leading and trailing white space (as `str::trim`).
pub open spec fn trim(s: Seq<char>) -> Seq<char> {
    trim_end(trim_start(s))
}

proof fn lemma_trim_start(s: Seq<char>, k: int)
    requires
        0 <= k <= s.len(),
        forall|j: int| 0 <= j < k ==> is_ws(s[j]),
        k == s.len() || !is_ws(s[k]),
    ensures
        trim_start(s) == s.skip(k),
    decreases k,
{
    if k > 0 {
        lemma_trim_start(s.drop_first(), k - 1);
        assert(s.drop_first().skip(k - 1) == s.skip(k));
    } else {
        assert(s.skip(0) == s);
    }
}

proof fn lemma_trim_end(s: Seq<char>, h: int)
    requires
        0 <= h <= s.len(),
        forall|j: int| h <= j < s.len() ==> is_ws(s[j]),
        h == 0 || !is_ws(s[h - 1]),
    ensures
        trim_end(s) == s.take(h),
    decreases s.len() - h,
{
    if h < s.len() {
        lemma_trim_end(s.drop_last(), h);
        assert(s.drop_last().take(h) == s.take(h));
    } else {
        assert(s.take(h) == s);
    }
}

/// The bounds `lo..hi` of `trim(s[a..b])`, counted from the start of `s`.
pub fn trim_bounds(s: &Vec<char>, a: usize, b: usize) -> (r: (usize, usize))
    requires
        a <= b <= s.len(),
    ensures
        a <= r.0 <= r.1 <= b,
        s@.subrange(r.0 as int, r.1 as int) == trim(s@.subrange(a as int, b as int)),
{
    let ghost t = s@.subrange(a as int, b as int);
    let mut lo = a;
    while lo < b && is_whitespace(s[lo])
        invariant
            a <= lo <= b <= s.len(),
            forall|j: int| a <= j < lo ==> is_ws(s@[j]),
        decreases b - lo,
    {
        lo += 1;
    }
    proof {
        lemma_trim_start(t, lo - a);
        assert(t.skip(lo - a) == s@.subrange(lo as int, b as int));
    }
    let mut hi = b;
    while hi > lo && is_whitespace(s[hi - 1])
        invariant
            a <= lo <= hi <= b <= s.len(),
            forall|j: int| hi <= j < b ==> is_ws(s@[j]),
        decreases hi - lo,
    {
        hi -= 1;
    }
    proof {
        let u = s@.subrange(lo as int, b as int);
        lemma_trim_end(u, hi - lo);
        assert(u.take(hi - lo) == s@.subrange(lo as int, hi as int));
    }
    (lo, hi)
}

/// `trim(s)`.
pub fn trim_chars(s: &Vec<char>) -> (r: Vec<char>)
    ensures
        r@ == trim(s@),
{
    let (lo, hi) = trim_bounds(s, 0, s.len());
    assert(s@.subrange(0, s.len() as int) == s@);
    slice_of(s, lo, hi)
}

/// `p` without one trailing carriage return.
pub open spec fn strip_cr(p: Seq<char>) -> Seq<char> {
    if p.len() > 0 && p.last() == '\r' {
        p.drop_last()
    } else {
        p
    }
}

/// The lines of `s`, as `str::lines` yields them: split at `\n`, a `\r` just before a
/// `\n` dropped, and no empty last line after a final `\n`.
pub open spec fn lines(s: Seq<char>) -> Seq<Seq<char>> {
    let ps = split_char(s, '\n');
    let body = ps.drop_last().map_values(|p: Seq<char>| strip_cr(p));
    if ps.last().len() == 0 {
        body
    } else {
        body.push(ps.last())
    }
}

/// The lines of `s`.
pub fn lines_of(s: &Vec<char>) -> (r: Vec<Vec<char>>)
    ensures
        views(r@) == lines(s@),
{
    let ps = split_on(s, '\n');
    let ghost pv = split_char(s@, '\n');
    proof {
        lemma_split_nonempty(s@, '\n');
    }
    let n = ps.len();
    let mut r: Vec<Vec<char>> = Vec::new();
    let mut i: usize = 0;
    while i + 1 < n
        invariant
            n == ps.len(),
            n >= 1,
            views(ps@) == pv,
            i + 1 <= n,
            views(r@) == pv.take(i as int).map_values(|p: Seq<char>| strip_cr(p)),
        decreases n - i,
    {
        let p = &ps[i];
        assert(p@ == pv[i as int]);
        let q = if p.len() > 0 && p[p.len() - 1] == '\r' {
            slice_of(p, 0, p.len() - 1)
        } else {
            slice_of(p, 0, p.len())
        };
        proof {
            assert(q@ == strip_cr(p@));
            assert(pv.take(i + 1) == pv.take(i as int).push(pv[i as int]));
            assert(views(r@.push(q)) == views(r@).push(q@));
            assert(pv.take(i + 1).map_values(|p: Seq<char>| strip_cr(p))
                == pv.take(i as int).map_values(|p: Seq<char>| strip_cr(p)).push(strip_cr(pv[i as int])));
        }
        r.push(q);
        i += 1;
    }
    assert(pv.take(i as int) == pv.drop_last());
    let last = &ps[n - 1];
    assert(last@ == pv.last());
    if last.len() > 0 {
        let q = slice_of(last, 0, last.len());
        proof {
            assert(last@.subrange(0, last@.len() as int) == last@);
            assert(views(r@.push(q)) == views(r@).push(q@));
        }
        r.push(q);
        assert(views(r@) =~= lines(s@));
    } else {
        assert(views(r@) =~= lines(s@));
    }
    r
}


/// Index of the first white-space character of `s` (its length when there is none).
pub open spec fn first_ws(s: Seq<char>) -> nat
    decreases s.len(),
{
    if s.len() == 0 {
        0
    } else if is_ws(s[0]) {
        0
    } else {
        first_ws(s.drop_first()) + 1
    }
}

proof fn lemma_first_ws(s: Seq<char>, k: int)
    requires
        0 <= k <= s.len(),
        forall|j: int| 0 <= j < k ==> !is_ws(s[j]),
        k == s.len() || is_ws(s[k]),
    ensures
        first_ws(s) == k,
    decreases k,
{
    if k > 0 {
        lemma_first_ws(s.drop_first(), k - 1);
    }
}

/// The white-space separated words of `s` (as `str::split_whitespace`).
pub open spec fn words(s: Seq<char>) -> Seq<Seq<char>>
    decreases s.len(),
{
    let t = trim_start(s);
    if t.len() == 0 {
        Seq::empty()
    } else {
        let k = first_ws(t);
        if 0 < k <= t.len() {
            proof {
                lemma_trim_start_len(s);
            }
            seq![t.take(k as int)] + words(t.skip(k as int))
        } else {
            Seq::empty()
        }
    }
}

pub proof fn lemma_trim_start_len(s: Seq<char>)
    ensures
        trim_start(s).len() <= s.len(),
        trim_start(s).len() > 0 ==> !is_ws(trim_start(s)[0]),
    decreases s.len(),
{
    if s.len() > 0 && is_ws(s[0]) {
        lemma_trim_start_len(s.drop_first());
    }
}

/// The words of `s`.
pub fn words_of(s: &Vec<char>) -> (r: Vec<Vec<char>>)
    ensures
        views(r@) == words(s@),
{
    let mut r: Vec<Vec<char>> = Vec::new();
    let mut i: usize = 0;
    let n = s.len();
    assert(s@.skip(0) == s@);
    assert(views(r@) =~= Seq::<Seq<char>>::empty());
    while i < n
        invariant
            n == s.len(),
            i <= n,
            words(s@) == views(r@) + words(s@.skip(i as int)),
        decreases n - i,
    {
        let ghost u = s@.skip(i as int);
        // skip white space
        let mut lo = i;
        while lo < n && is_whitespace(s[lo])
            invariant
                i <= lo <= n,
                n == s.len(),
                forall|j: int| i <= j < lo ==> is_ws(s@[j]),
            decreases n - lo,
        {
            lo += 1;
        }
        proof {
            lemma_trim_start(u, lo - i);
            assert(u.skip(lo - i) == s@.skip(lo as int));
        }
        if lo == n {
            proof {
                assert(trim_start(u).len() == 0);
                assert(words(u) == Seq::<Seq<char>>::empty());
                assert(views(r@) + words(u) == views(r@));
                assert(s@.skip(n as int).len() == 0);
                assert(trim_start(s@.skip(n as int)) == s@.skip(n as int));
            }
            i = n;
        } else {
            let mut hi = lo;
            while hi < n && !is_whitespace(s[hi])
                invariant
                    lo <= hi <= n,
                    n == s.len(),
                    forall|j: int| lo <= j < hi ==> !is_ws(s@[j]),
                decreases n - hi,
            {
                hi += 1;
            }
            let w = slice_of(s, lo, hi);
            proof {
                let t = s@.skip(lo as int);
                assert(trim_start(u) == t);
                lemma_first_ws(t, hi - lo);
                assert(t.take(hi - lo) == w@);
                assert(t.skip(hi - lo) == s@.skip(hi as int));
                assert(views(r@.push(w)) == views(r@).push(w@));
                assert(views(r@) + words(u) == views(r@).push(w@) + words(s@.skip(hi as int)));
            }
            r.push(w);
            i = hi;
        }
    }
    proof {
        assert(s@.skip(n as int).len() == 0);
        assert(trim_start(s@.skip(n as int)) == s@.skip(n as int));
        assert(words(s@.skip(n as int)) == Seq::<Seq<char>>::empty());
        assert(views(r@) + Seq::<Seq<char>>::empty() == views(r@));
    }
    r
}


/// Whether `p` occurs in `s` starting at position `i`.
pub open spec fn occurs_at(s: Seq<char>, p: Seq<char>, i: int) -> bool {
    0 <= i && i + p.len() <= s.len() && s.subrange(i, i + p.len()) == p
}

/// Whether `p` occurs in `s` (as `str::contains` with a string pattern).
pub open spec fn has_sub(s: Seq<char>, p: Seq<char>) -> bool {
    exists|i: int| occurs_at(s, p, i)
}

/// Whether `p` occurs in `s` at position `i`.
fn matches_at(s: &Vec<char>, p: &Vec<char>, i: usize) -> (r: bool)
    requires
        i + p.len() <= s.len(),
    ensures
        r == occurs_at(s@, p@, i as int),
{
    let mut j: usize = 0;
    while j < p.len()
        invariant
            i + p.len() <= s.len(),
            j <= p.len(),
            forall|k: int| 0 <= k < j ==> s@[i + k] == p@[k],
        decreases p.len() - j,
    {
        if s[i + j] != p[j] {
            assert(s@.subrange(i as int, i + p.len())[j as int] != p@[j as int]);
            return false;
        }
        j += 1;
    }
    assert(s@.subrange(i as int, i + p.len()) =~= p@);
    true
}

/// Whether `p` occurs in `s`.
pub fn contains_chars(s: &Vec<char>, p: &Vec<char>) -> (r: bool)
    ensures
        r == has_sub(s@, p@),
{
    if p.len() > s.len() {
        return false;
    }
    let last = s.len() - p.len();
    let mut i: usize = 0;
    loop
        invariant
            last == s.len() - p.len(),
            i <= last,
            forall|k: int| 0 <= k < i ==> !occurs_at(s@, p@, k),
        decreases last - i,
    {
        if matches_at(s, p, i) {
            return true;
        }
        if i == last {
            return false;
        }
        i += 1;
    }
}

/// Whether `s` begins with `p`.
pub open spec fn starts_with(s: Seq<char>, p: Seq<char>) -> bool {
    p.len() <= s.len() && s.take(p.len() as int) == p
}

/// Whether `s` begins with `p`.
pub fn starts_with_chars(s: &Vec<char>, p: &Vec<char>) -> (r: bool)
    ensures
        r == starts_with(s@, p@),
{
    if p.len() > s.len() {
        return false;
    }
    let r = matches_at(s, p, 0);
    assert(s@.subrange(0, p.len() as int) == s@.take(p.len() as int));
    r
}

/// ASCII lower case of `c`.
pub open spec fn ascii_lower(c: char) -> char {
    if 'A' <= c && c <= 'Z' {
        ((c as u32) + 32) as char
    } else {
        c
    }
}

/// Whether every character of `s` is ASCII.
pub open spec fn all_ascii(s: Seq<char>) -> bool {
    forall|i: int| 0 <= i < s.len() ==> (s[i] as u32) < 128
}

/// What `str::to_lowercase` gives for `s`: the Unicode lower case mapping, which
/// takes pages to state.
pub uninterp spec fn lowercase(s: Seq<char>) -> Seq<char>;

/// Calls `str::to_lowercase`. Its documentation states that the result is the lowercase
/// equivalent of the string under Unicode's `Lowercase` property; on ASCII text that maps
/// `A`–`Z` to `a`–`z` and keeps every other character. Beyond ASCII the result is only named.
#[verifier::external_body]
pub(crate) fn to_lowercase(s: &str) -> (r: String)
    ensures
        r@ == lowercase(s@),
        all_ascii(s@) ==> r@ == s@.map_values(|c: char| ascii_lower(c)),
{
    s.to_lowercase()
}

/// ASCII upper case of `c`.
pub open spec fn ascii_upper(c: char) -> char {
    if 'a' <= c && c <= 'z' {
        ((c as u32) - 32) as char
    } else {
        c
    }
}

/// What `str::to_uppercase` gives for `s`: the Unicode upper case mapping, which takes
/// pages to state.
pub uninterp spec fn uppercase(s: Seq<char>) -> Seq<char>;

/// Calls `str::to_uppercase`. Its documentation states that the result is the uppercase
/// equivalent of the string under Unicode's `Uppercase` property; on ASCII text that maps
/// `a`–`z` to `A`–`Z` and keeps every other character. Beyond ASCII the result is only named.
#[verifier::external_body]
pub(crate) fn to_uppercase(s: &str) -> (r: String)
    ensures
        r@ == uppercase(s@),
        all_ascii(s@) ==> r@ == s@.map_values(|c: char| ascii_upper(c)),
{
    s.to_uppercase()
}


/// `s` with `to` put before every character and at the end (what `str::replace` does
/// with an empty pattern).
pub open spec fn interleave(s: Seq<char>, to: Seq<char>) -> Seq<char>
    decreases s.len(),
{
    if s.len() == 0 {
        to
    } else {
        to + seq![s[0]] + interleave(s.drop_first(), to)
    }
}

/// `s` with every non-overlapping occurrence of `from`, scanning left to right, replaced
/// by `to` (as `str::replace`).
pub open spec fn replace_all(s: Seq<char>, from: Seq<char>, to: Seq<char>) -> Seq<char>
    decreases s.len(),
{
    if from.len() == 0 {
        interleave(s, to)
    } else if s.len() == 0 {
        s
    } else if starts_with(s, from) {
        to + replace_all(s.skip(from.len() as int), from, to)
    } else {
        seq![s[0]] + replace_all(s.drop_first(), from, to)
    }
}

/// `replace_all(s, from, to)`.
pub fn replace_chars(s: &Vec<char>, from: &Vec<char>, to: &Vec<char>) -> (r: Vec<char>)
    ensures
        r@ == replace_all(s@, from@, to@),
{
    let mut r: Vec<char> = Vec::new();
    let mut i: usize = 0;
    assert(s@.skip(0) == s@);
    if from.len() == 0 {
        while i < s.len()
            invariant
                from@.len() == 0,
                i <= s.len(),
                replace_all(s@, from@, to@) == r@ + interleave(s@.skip(i as int), to@),
            decreases s.len() - i,
        {
            let ghost rest = s@.skip(i as int);
            let ghost r0 = r@;
            assert(rest[0] == s@[i as int]);
            assert(rest.drop_first() == s@.skip(i + 1));
            append_chars(&mut r, to);
            r.push(s[i]);
            i += 1;
            assert(r@ == r0 + to@ + seq![rest[0]]);
            assert(r0 + interleave(rest, to@) =~= r@ + interleave(s@.skip(i as int), to@));
        }
        append_chars(&mut r, to);
        assert(s@.skip(i as int).len() == 0);
        return r;
    }
    while i < s.len()
        invariant
            from@.len() > 0,
            i <= s.len(),
            replace_all(s@, from@, to@) == r@ + replace_all(s@.skip(i as int), from@, to@),
        decreases s.len() - i,
    {
        let ghost rest = s@.skip(i as int);
        let ghost r0 = r@;
        if from.len() <= s.len() - i && matches_at(s, from, i) {
            proof {
                assert(rest.take(from@.len() as int) == s@.subrange(i as int, i + from@.len()));
                assert(starts_with(rest, from@));
                assert(rest.skip(from@.len() as int) == s@.skip(i + from@.len()));
            }
            append_chars(&mut r, to);
            i += from.len();
            assert(r0 + (to@ + replace_all(s@.skip(i as int), from@, to@)) == r@ + replace_all(
                s@.skip(i as int),
                from@,
                to@,
            ));
        } else {
            proof {
                if starts_with(rest, from@) {
                    assert(i + from@.len() <= s@.len());
                    assert(rest.take(from@.len() as int) == s@.subrange(i as int, i + from@.len()));
                }
                assert(rest[0] == s@[i as int]);
                assert(rest.drop_first() == s@.skip(i + 1));
            }
            r.push(s[i]);
            i += 1;
            assert(r0 + (seq![rest[0]] + replace_all(s@.skip(i as int), from@, to@)) == r@
                + replace_all(s@.skip(i as int), from@, to@));
        }
    }
    assert(s@.skip(i as int).len() == 0);
    r
}

} // verus!
