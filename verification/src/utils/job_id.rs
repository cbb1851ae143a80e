use vstd::prelude::*;

use crate::text::{
    chars_of, find_char, find_in, parse_usize, parse_usize_spec, split_char, split_on, views,
    lemma_split_nonempty,
};

verus! {

/// A list of SLURM job ids given on the command line.
#[derive(Debug, Clone)]
pub struct JobIds {
    pub ids: Vec<usize>,
}

/// The ids `a, a + 1, ..., b - 1` (empty when `b <= a`).
pub open spec fn id_range(a: usize, b: int) -> Seq<usize> {
    Seq::new(if b > a { (b - a) as nat } else { 0 }, |i: int| (a + i) as usize)
}

/// A comma-separated piece is a range `first-last` when it holds a dash.
pub open spec fn is_range(p: Seq<char>) -> bool {
    find_char(p, '-') is Some
}

/// The two bounds of a range piece: the text before the first dash and the text
/// between the first and the second dash.
pub open spec fn range_bounds(p: Seq<char>) -> (Option<usize>, Option<usize>) {
    let ex = split_char(p, '-');
    (parse_usize_spec(ex[0]), parse_usize_spec(ex[1]))
}

/// A piece is accepted when its numbers parse (and a range's upper bound can be incremented).
pub open spec fn piece_ok(p: Seq<char>) -> bool {
    if is_range(p) {
        let (a, b) = range_bounds(p);
        a is Some && b is Some && b.unwrap() < usize::MAX
    } else {
        parse_usize_spec(p) is Some
    }
}

/// A range piece whose upper bound is `usize::MAX`: `last + 1` overflows there.
pub open spec fn piece_overflows(p: Seq<char>) -> bool {
    is_range(p) && range_bounds(p).0 is Some && range_bounds(p).1 == Some(usize::MAX)
}

/// The ids a piece stands for: a single number, or `first..=last`.
pub open spec fn piece_ids(p: Seq<char>) -> Seq<usize> {
    if is_range(p) {
        let (a, b) = range_bounds(p);
        id_range(a.unwrap(), b.unwrap() + 1)
    } else {
        seq![parse_usize_spec(p).unwrap()]
    }
}

/// The ids of all pieces, in order; `None` when some piece does not parse.
pub open spec fn pieces_ids(parts: Seq<Seq<char>>) -> Option<Seq<usize>>
    decreases parts.len(),
{
    if parts.len() == 0 {
        Some(Seq::empty())
    } else {
        match pieces_ids(parts.drop_last()) {
            None => None,
            Some(r) => if piece_ok(parts.last()) {
                Some(r + piece_ids(parts.last()))
            } else {
                None
            },
        }
    }
}

/// Whether parsing reaches a range whose upper bound overflows before any error.
pub open spec fn pieces_overflow(parts: Seq<Seq<char>>) -> bool
    decreases parts.len(),
{
    parts.len() > 0 && (pieces_overflow(parts.drop_last()) || (pieces_ids(parts.drop_last()) is Some
        && piece_overflows(parts.last())))
}

/// The ids that `arg` stands for, as `JobIds::parse_jobids` reads it.
pub open spec fn jobids_of(arg: Seq<char>) -> Option<Seq<usize>> {
    pieces_ids(split_char(arg, ','))
}

proof fn lemma_prefix_none(parts: Seq<Seq<char>>, k: int)
    requires
        0 <= k <= parts.len(),
        pieces_ids(parts.take(k)) is None,
    ensures
        pieces_ids(parts) is None,
    decreases parts.len() - k,
{
    if k < parts.len() {
        assert(parts.take(k + 1).drop_last() == parts.take(k));
        lemma_prefix_none(parts, k + 1);
    } else {
        assert(parts.take(k) == parts);
    }
}

proof fn lemma_prefix_overflow(parts: Seq<Seq<char>>, k: int)
    requires
        0 <= k <= parts.len(),
        pieces_overflow(parts.take(k)),
    ensures
        pieces_overflow(parts),
    decreases parts.len() - k,
{
    if k < parts.len() {
        assert(parts.take(k + 1).drop_last() == parts.take(k));
        lemma_prefix_overflow(parts, k + 1);
    } else {
        assert(parts.take(k) == parts);
    }
}

impl JobIds {
    /// Reads a comma-separated list of ids and inclusive ranges `first-last`
    /// (such as `3,7-9`). Fails exactly when a number does not parse.
    pub fn parse_jobids(arg: &str) -> (r: Result<Self, std::num::ParseIntError>)
        requires
            !pieces_overflow(split_char(arg@, ',')),
        ensures
            match r {
                Ok(j) => jobids_of(arg@) == Some(j.ids@),
                Err(_) => jobids_of(arg@) is None,
            },
    {
        let chars = chars_of(arg);
        let parts = split_on(&chars, ',');
        let ghost ps = split_char(arg@, ',');
        assert(views(parts@) == ps);
        let mut ids: Vec<usize> = Vec::new();
        let mut i: usize = 0;
        assert(ps.take(0) =~= Seq::<Seq<char>>::empty());
        while i < parts.len()
            invariant
                i <= parts.len(),
                views(parts@) == ps,
                ps == split_char(arg@, ','),
                !pieces_overflow(ps),
                ps.len() == parts.len(),
                pieces_ids(ps.take(i as int)) == Some(ids@),
                !pieces_overflow(ps.take(i as int)),
            decreases parts.len() - i,
        {
            let p = &parts[i];
            let ghost pv = p@;
            assert(pv == ps[i as int]);
            let ghost pre = ps.take(i as int);
            assert(ps.take(i + 1).drop_last() == pre);
            assert(ps.take(i + 1).last() == pv);
            let ghost ids0 = ids@;
            match find_in(p, 0, p.len(), '-') {
                Some(_) => {
                    assert(p@.subrange(0, p.len() as int) == pv);
                    let ex = split_on(p, '-');
                    proof {
                        lemma_split_nonempty(pv, '-');
                        assert(views(ex@)[0] == ex@[0]@);
                        assert(views(ex@)[1] == ex@[1]@);
                    }
                    assert(is_range(pv));
                    let first = match parse_usize(&ex[0]) {
                        Ok(n) => n,
                        Err(e) => {
                            proof {
                                assert(range_bounds(pv).0 is None);
                                assert(!piece_ok(pv));
                                assert(pieces_ids(ps.take(i + 1)) is None);
                                lemma_prefix_none(ps, i + 1);
                            }
                            return Err(e);
                        },
                    };
                    let last = match parse_usize(&ex[1]) {
                        Ok(n) => n,
                        Err(e) => {
                            proof {
                                assert(range_bounds(pv).1 is None);
                                assert(!piece_ok(pv));
                                assert(pieces_ids(ps.take(i + 1)) is None);
                                lemma_prefix_none(ps, i + 1);
                            }
                            return Err(e);
                        },
                    };
                    proof {
                        if last == usize::MAX {
                            assert(pieces_overflow(ps.take(i + 1)));
                            lemma_prefix_overflow(ps, i + 1);
                        }
                    }
                    let end = last + 1;
                    let mut k = first;
                    while k < end
                        invariant
                            first <= end ==> first <= k <= end,
                            first > end ==> k == first,
                            ids@ == ids0 + id_range(first, k as int),
                        decreases end - k,
                    {
                        ids.push(k);
                        k += 1;
                        proof {
                            assert(id_range(first, k as int) == id_range(first, k - 1).push((k - 1) as usize));
                        }
                    }
                    proof {
                        assert(id_range(first, k as int) == id_range(first, end as int));
                        assert(piece_ok(pv));
                        assert(piece_ids(pv) == id_range(first, end as int));
                    }
                },
                None => {
                    assert(p@.subrange(0, p.len() as int) == pv);
                    match parse_usize(p) {
                        Ok(n) => {
                            ids.push(n);
                            assert(piece_ids(pv) == seq![n]);
                        },
                        Err(e) => {
                            proof {
                                assert(!is_range(pv));
                                assert(!piece_ok(pv));
                                assert(pieces_ids(ps.take(i + 1)) is None);
                                lemma_prefix_none(ps, i + 1);
                            }
                            return Err(e);
                        },
                    }
                },
            }
            i += 1;
        }
        assert(ps.take(i as int) == ps);
        Ok(JobIds { ids })
    }
}

} // verus!
