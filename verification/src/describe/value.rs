//! The label pair naming a node of the argument tree.

use vstd::prelude::*;

verus! {

/// A name with an optional description, never mutated after creation.
#[derive(Debug, PartialEq)]
pub struct Value<'a> {
    pub name: &'a str,
    pub description: Option<&'a str>,
}

/// `name` padded with spaces to at least eight columns, the width of the
/// field-name column in detailed listings.
pub open spec fn padded_name(name: Seq<char>) -> Seq<char> {
    if name.len() >= 8 {
        name
    } else {
        name + Seq::new((8 - name.len()) as nat, |i: int| ' ')
    }
}

impl<'a> Value<'a> {
    /// The plain rendering: the bare name.
    pub open spec fn spec_display(self) -> Seq<char> {
        self.name@
    }

    /// The labelled rendering: the name, and the description — when there is
    /// one — after the name is padded to the eight-column boundary.
    pub open spec fn spec_display_alternate(self) -> Seq<char> {
        match self.description {
            Option::Some(d) => padded_name(self.name@) + d@,
            Option::None => self.name@,
        }
    }

    pub fn display(&self) -> (r: String)
        ensures
            r@ == self.spec_display(),
    {
        self.name.to_owned()
    }

    pub fn display_alternate(&self) -> (r: String)
        ensures
            r@ == self.spec_display_alternate(),
    {
        match self.description {
            Option::None => self.name.to_owned(),
            Option::Some(d) => {
                let mut r = self.name.to_owned();
                let mut l = self.name.unicode_len();
                proof {
                    assert(self.name@ + Seq::new(0, |i: int| ' ') =~= self.name@);
                }
                while l < 8
                    invariant
                        self.name@.len() <= l,
                        l <= 8 || l == self.name@.len(),
                        r@ == self.name@ + Seq::new((l - self.name@.len()) as nat, |i: int| ' '),
                    decreases 8 - l,
                {
                    let ghost pre = r@;
                    r.append(" ");
                    proof {
                        reveal_strlit(" ");
                        assert(self.name@ + Seq::new((l + 1 - self.name@.len()) as nat, |i: int| ' ')
                            =~= pre + (" ")@);
                    }
                    l += 1;
                }
                proof {
                    if self.name@.len() >= 8 {
                        assert(self.name@ + Seq::new(0, |i: int| ' ') =~= self.name@);
                    }
                    assert(r@ == padded_name(self.name@));
                }
                r.append(d);
                r
            },
        }
    }
}

} // verus!
