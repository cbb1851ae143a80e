use vstd::prelude::*;

use crate::strmap::{pair_views, StrMap};
use crate::text::{chars_of, replace_all, replace_chars, string_of};

verus! {

/// `template` with each pair's key replaced by its value, pair after pair.
pub open spec fn fill(template: Seq<char>, ps: Seq<(Seq<char>, Seq<char>)>) -> Seq<char>
    decreases ps.len(),
{
    if ps.len() == 0 {
        template
    } else {
        fill(replace_all(template, ps[0].0, ps[0].1), ps.drop_first())
    }
}

/// The text of a template with every key of `replacement_map` replaced by its value; the
/// pairs are applied in the order in which the map keeps them.
pub fn fill_template(template: &str, replacement_map: &StrMap) -> (r: String)
    ensures
        r@ == fill(template@, replacement_map.pairs()),
{
    let pairs = replacement_map.to_pairs();
    let ghost ps = replacement_map.pairs();
    let mut cur = chars_of(template);
    let mut i: usize = 0;
    assert(ps.skip(0) == ps);
    while i < pairs.len()
        invariant
            pair_views(pairs@) == ps,
            i <= pairs.len(),
            fill(template@, ps) == fill(cur@, ps.skip(i as int)),
        decreases pairs.len() - i,
    {
        let from = chars_of(pairs[i].0.as_str());
        let to = chars_of(pairs[i].1.as_str());
        let ghost rest = ps.skip(i as int);
        assert(rest[0] == (from@, to@));
        assert(rest.drop_first() == ps.skip(i + 1));
        cur = replace_chars(&cur, &from, &to);
        i += 1;
    }
    assert(ps.skip(i as int).len() == 0);
    string_of(&cur)
}

} // verus!
