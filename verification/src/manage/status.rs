use vstd::prelude::*;

use crate::text::{
    chars_of, find_char, find_in, lemma_find_char, parse_usize, parse_usize_spec, slice_of,
    split_char, split_on, views, words, words_of,
};
use crate::utils::job_id::id_range;

verus! {

/// The command that lists the nodes that are up.
pub const ACTIVE_NODES_COMMAND: &'static str = "sinfo -o \"%N %a\" | grep up";

/// The nodes a piece of a node list stands for: `a-b` is `a..b` (the upper end left out), a plain number is itself; `None` when a number does not parse.
pub open spec fn node_piece(p: Seq<char>) -> Option<Seq<usize>> {
    match find_char(p, '-') {
        Some(d) => {
            let a = parse_usize_spec(p.take(d as int));
            let b = parse_usize_spec(p.skip(d + 1 as int));
            if a is Some && b is Some {
                Some(id_range(a.unwrap(), b.unwrap() as int))
            } else {
                None
            }
        },
        None => match parse_usize_spec(p) {
            Some(n) => Some(seq![n]),
            None => None,
        },
    }
}

/// The nodes of the pieces, in order; `None` when a piece does not parse.
pub open spec fn nodes_of(ps: Seq<Seq<char>>) -> Option<Seq<usize>>
    decreases ps.len(),
{
    if ps.len() == 0 {
        Some(Seq::empty())
    } else {
        match (nodes_of(ps.drop_last()), node_piece(ps.last())) {
            (Some(r), Some(n)) => Some(r + n),
            _ => None,
        }
    }
}

/// The active nodes that a `sinfo` line such as `titan[01-05,07] up` names: the pieces
/// between `[` and `]` of its first word (none when it has no brackets). `None` when it cannot
/// be read: no word at all, `]` before `[`, or a number that does not parse.
pub open spec fn active_nodes_spec(stdout: Seq<char>) -> Option<Seq<usize>> {
    let ws = words(stdout);
    if ws.len() == 0 {
        None
    } else {
        let r = ws[0];
        match (find_char(r, '['), find_char(r, ']')) {
            (Some(s), Some(e)) => if e < s + 1 {
                None
            } else {
                nodes_of(split_char(r.subrange(s + 1 as int, e as int), ','))
            },
            _ => Some(Seq::empty()),
        }
    }
}

proof fn lemma_nodes_prefix_none(ps: Seq<Seq<char>>, k: int)
    requires
        0 <= k <= ps.len(),
        nodes_of(ps.take(k)) is None,
    ensures
        nodes_of(ps) is None,
    decreases ps.len() - k,
{
    if k < ps.len() {
        assert(ps.take(k + 1).drop_last() == ps.take(k));
        lemma_nodes_prefix_none(ps, k + 1);
    } else {
        assert(ps.take(k) == ps);
    }
}

/// Reads the output of `sinfo -o "%N %a" | grep up` into the numbers of the active nodes.
/// `None` exactly when the line cannot be read.
pub fn get_active_nodes(stdout: &str) -> (r: Option<Vec<usize>>)
    ensures
        match r {
            Some(v) => active_nodes_spec(stdout@) == Some(v@),
            None => active_nodes_spec(stdout@) is None,
        },
{
    let chars = chars_of(stdout);
    let ws = words_of(&chars);
    if ws.len() == 0 {
        return None;
    }
    let range_titan = &ws[0];
    assert(views(ws@)[0] == range_titan@);
    let open = find_in(range_titan, 0, range_titan.len(), '[');
    let close = find_in(range_titan, 0, range_titan.len(), ']');
    assert(range_titan@.subrange(0, range_titan.len() as int) == range_titan@);
    let mut nodes: Vec<usize> = Vec::new();
    match (open, close) {
        (Some(s), Some(e)) => {
            if e < s + 1 {
                return None;
            }
            let portions = slice_of(range_titan, s + 1, e);
            let parts = split_on(&portions, ',');
            let ghost ps = split_char(portions@, ',');
            let mut i: usize = 0;
            assert(ps.take(0) =~= Seq::<Seq<char>>::empty());
            while i < parts.len()
                invariant
                    views(parts@) == ps,
                    i <= parts.len(),
                    nodes_of(ps.take(i as int)) == Some(nodes@),
                    active_nodes_spec(stdout@) == nodes_of(ps),
                decreases parts.len() - i,
            {
                let p = &parts[i];
                assert(p@ == ps[i as int]);
                assert(ps.take(i + 1).drop_last() == ps.take(i as int));
                assert(ps.take(i + 1).last() == ps[i as int]);
                assert(p@.subrange(0, p.len() as int) == p@);
                match find_in(p, 0, p.len(), '-') {
                    Some(d) => {
                        let left = slice_of(p, 0, d);
                        let right = slice_of(p, d + 1, p.len());
                        let a = match parse_usize(&left) {
                            Ok(n) => n,
                            Err(_) => {
                                proof {
                                    lemma_nodes_prefix_none(ps, i + 1);
                                }
                                return None;
                            },
                        };
                        let b = match parse_usize(&right) {
                            Ok(n) => n,
                            Err(_) => {
                                proof {
                                    lemma_nodes_prefix_none(ps, i + 1);
                                }
                                return None;
                            },
                        };
                        let ghost n0 = nodes@;
                        let mut k = a;
                        while k < b
                            invariant
                                a <= b ==> a <= k <= b,
                                a > b ==> k == a,
                                nodes@ == n0 + id_range(a, k as int),
                            decreases b - k,
                        {
                            nodes.push(k);
                            k += 1;
                            assert(id_range(a, k as int) == id_range(a, k - 1).push((k - 1) as usize));
                        }
                        assert(id_range(a, k as int) == id_range(a, b as int));
                    },
                    None => {
                        match parse_usize(p) {
                            Ok(n) => {
                                nodes.push(n);
                            },
                            Err(_) => {
                                proof {
                                    lemma_nodes_prefix_none(ps, i + 1);
                                }
                                return None;
                            },
                        }
                    },
                }
                i += 1;
            }
            assert(ps.take(i as int) == ps);
        },
        _ => {
            assert(nodes@ =~= Seq::<usize>::empty());
        },
    }
    Some(nodes)
}

} // verus!
