//! The flat join/wrap policy: an earlier, single-line form of the one under
//! `describe::formatter`, without the continuation-line indent.

use vstd::prelude::*;

use crate::describe::formatter::{opt_str, option_views};

verus! {

/// Configuration of the join/wrap policy; a `None` field contributes the
/// empty string at its position.
#[derive(Clone, Copy)]
pub struct Formatter<'a> {
    pub very_start: Option<&'a str>,
    pub very_end: Option<&'a str>,
    pub start: Option<&'a str>,
    pub end: Option<&'a str>,
    pub middle: Option<&'a str>,
}

impl<'a> Default for Formatter<'a> {
    /// The neutral configuration: `fmt` plainly concatenates the items.
    fn default() -> (r: Self)
        ensures
            r.very_start.is_none(),
            r.very_end.is_none(),
            r.start.is_none(),
            r.end.is_none(),
            r.middle.is_none(),
    {
        Formatter { very_start: None, very_end: None, start: None, end: None, middle: None }
    }
}

impl<'a> Formatter<'a> {
    /// What one rendered item contributes, given the text accumulated so
    /// far: the separator once something already stands there, then the
    /// item inside its wrapper.
    pub open spec fn piece(self, acc: Seq<char>, item: Seq<char>) -> Seq<char> {
        (if acc.len() == 0 {
            Seq::<char>::empty()
        } else {
            opt_str(self.middle)
        }) + opt_str(self.start) + item + opt_str(self.end)
    }

    /// Left fold of `piece` over the rendered items; `None` items are
    /// skipped and contribute nothing, separator included.
    pub open spec fn joined(self, parts: Seq<Option<Seq<char>>>) -> Seq<char>
        decreases parts.len(),
    {
        if parts.len() == 0 {
            Seq::empty()
        } else {
            let acc = self.joined(parts.drop_last());
            match parts.last() {
                Option::None => acc,
                Option::Some(item) => acc + self.piece(acc, item),
            }
        }
    }

    /// The whole rendering: the joined items inside the outer wrapper.
    pub open spec fn formatted(self, parts: Seq<Option<Seq<char>>>) -> Seq<char> {
        opt_str(self.very_start) + self.joined(parts) + opt_str(self.very_end)
    }

    /// Appends the piece of configuration to `out`, or nothing for `None`.
    fn append_opt(out: &mut String, o: Option<&str>)
        ensures
            final(out)@ == old(out)@ + opt_str(o),
    {
        match o {
            Option::Some(s) => out.append(s),
            Option::None => {
                proof {
                    assert(old(out)@ + opt_str(o) =~= old(out)@);
                }
            },
        }
    }

    /// Joins a sequence of already-rendered items: `None` entries are
    /// filtered out, without a separator of their own.
    pub fn fmt_rendered(&self, parts: &Vec<Option<String>>) -> (r: String)
        ensures
            r@ == self.formatted(option_views(parts@)),
    {
        let ghost views = option_views(parts@);
        let mut acc = String::new();
        let mut idx: usize = 0;
        while idx < parts.len()
            invariant
                idx <= parts@.len(),
                views == option_views(parts@),
                acc@ == self.joined(views.take(idx as int)),
            decreases parts@.len() - idx,
        {
            proof {
                assert(views.take(idx + 1).drop_last() =~= views.take(idx as int));
                assert(views.take(idx + 1).last() == views[idx as int]);
            }
            let ghost pre = acc@;
            match &parts[idx] {
                Option::None => {},
                Option::Some(item) => {
                    if !acc.as_str().is_empty() {
                        Self::append_opt(&mut acc, self.middle);
                    }
                    Self::append_opt(&mut acc, self.start);
                    acc.append(item.as_str());
                    Self::append_opt(&mut acc, self.end);
                    proof {
                        assert(acc@ =~= pre + self.piece(pre, item@));
                    }
                },
            }
            proof {
                assert(acc@ == self.joined(views.take(idx + 1)));
            }
            idx += 1;
        }
        proof {
            assert(views.take(parts@.len() as int) =~= views);
        }
        let mut result = String::new();
        Self::append_opt(&mut result, self.very_start);
        result.append(acc.as_str());
        Self::append_opt(&mut result, self.very_end);
        proof {
            assert(result@ =~= self.formatted(views));
        }
        result
    }

    /// Renders each item with `format_function`, then joins the results; an
    /// item whose renderer yields `None` leaves no trace, and an empty item
    /// sequence yields exactly the outer wrapper.
    pub fn fmt<Item, F: Fn(&Item) -> Option<String>>(&self, args: &Vec<Item>, format_function: F) -> (r:
        String)
        requires
            forall|i: int| 0 <= i < args@.len() ==> call_requires(format_function, (&args@[i],)),
        ensures
            exists|parts: Seq<Option<String>>|
                {
                    &&& #[trigger] parts.len() == args@.len()
                    &&& forall|i: int|
                        0 <= i < parts.len() ==> call_ensures(
                            format_function,
                            (&args@[i],),
                            parts[i],
                        )
                    &&& r@ == self.formatted(option_views(parts))
                },
            args@.len() == 0 ==> r@ == opt_str(self.very_start) + opt_str(self.very_end),
    {
        let mut parts: Vec<Option<String>> = Vec::new();
        let mut i: usize = 0;
        while i < args.len()
            invariant
                forall|k: int| 0 <= k < args@.len() ==> call_requires(format_function, (&args@[k],)),
                i <= args@.len(),
                parts@.len() == i,
                forall|k: int|
                    0 <= k < i ==> call_ensures(format_function, (&args@[k],), parts@[k]),
            decreases args@.len() - i,
        {
            let rendered = format_function(&args[i]);
            parts.push(rendered);
            i += 1;
        }
        let r = self.fmt_rendered(&parts);
        proof {
            if args@.len() == 0 {
                assert(option_views(parts@) =~= Seq::<Option<Seq<char>>>::empty());
                assert(opt_str(self.very_start) + Seq::<char>::empty() + opt_str(self.very_end)
                    =~= opt_str(self.very_start) + opt_str(self.very_end));
            }
        }
        r
    }
}

} // verus!
