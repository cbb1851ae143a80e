use vstd::prelude::*;

use crate::text::{chars_of, split_char, split_on, string_of, views};

verus! {

/// The account on the cluster.
#[derive(Debug)]
pub struct Credentials {
    pub username: String,
    pub password: String,
}

impl Credentials {
    /// Reads the contents of the `.id` file, `user:password`. Gives `None` unless the
    /// contents hold exactly one `:`; the two parts are kept as they stand.
    pub fn parse(content: &str) -> (r: Option<Credentials>)
        ensures
            match r {
                Some(c) => split_char(content@, ':').len() == 2 && c.username@ == split_char(
                    content@,
                    ':',
                )[0] && c.password@ == split_char(content@, ':')[1],
                None => split_char(content@, ':').len() != 2,
            },
    {
        let chars = chars_of(content);
        let parts = split_on(&chars, ':');
        assert(views(parts@) == split_char(content@, ':'));
        if parts.len() != 2 {
            return None;
        }
        assert(views(parts@)[0] == parts@[0]@);
        assert(views(parts@)[1] == parts@[1]@);
        Some(Credentials { username: string_of(&parts[0]), password: string_of(&parts[1]) })
    }
}

} // verus!
