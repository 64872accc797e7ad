//! Joining and wrapping of rendered items into one string.
//!
//! A `Formatter` describes how a sequence of already-rendered items is glued
//! together: an optional wrapper around the whole result (`very_start` /
//! `very_end`), an optional wrapper around each item (`start` / `end`), an
//! optional separator between items (`middle`), and an optional indent put in
//! front of every line of an item but its first (`new_line_chars`).

use vstd::prelude::*;

verus! {

/// Configuration of the join/wrap policy.
///
/// A field holding `None` contributes the empty string at its position.
pub struct Formatter<'a> {
    pub very_start: Option<&'a str>,
    pub very_end: Option<&'a str>,
    pub start: Option<&'a str>,
    pub end: Option<&'a str>,
    pub middle: Option<&'a str>,
    pub new_line_chars: Option<&'a str>,
}

impl<'a> Default for Formatter<'a> {
    /// The neutral configuration: every piece is absent, so `fmt` plainly
    /// concatenates the rendered items.
    fn default() -> (r: Self)
        ensures
            r.very_start.is_none(),
            r.very_end.is_none(),
            r.start.is_none(),
            r.end.is_none(),
            r.middle.is_none(),
            r.new_line_chars.is_none(),
    {
        Formatter {
            very_start: None,
            very_end: None,
            start: None,
            end: None,
            middle: None,
            new_line_chars: None,
        }
    }
}

/// The characters an optional piece of configuration stands for.
pub open spec fn opt_str(o: Option<&str>) -> Seq<char> {
    match o {
        Option::Some(s) => s@,
        Option::None => Seq::empty(),
    }
}

/// Position of the first `'\n'` in `s`, or `s.len()` if there is none.
pub open spec fn first_newline(s: Seq<char>) -> int
    decreases s.len(),
{
    if s.len() == 0 {
        0
    } else if s[0] == '\n' {
        0
    } else {
        1 + first_newline(s.skip(1))
    }
}

pub proof fn lemma_first_newline_bounds(s: Seq<char>)
    ensures
        0 <= first_newline(s) <= s.len(),
        forall|i: int| 0 <= i < first_newline(s) ==> s[i] != '\n',
        first_newline(s) < s.len() ==> s[first_newline(s)] == '\n',
    decreases s.len(),
{
    if s.len() == 0 {
    } else if s[0] == '\n' {
    } else {
        lemma_first_newline_bounds(s.skip(1));
        assert forall|i: int| 0 <= i < first_newline(s) implies s[i] != '\n' by {
            if i > 0 {
                assert(s.skip(1)[i - 1] == s[i]);
            }
        }
        if first_newline(s) < s.len() {
            assert(s.skip(1)[first_newline(s) - 1] == s[first_newline(s)]);
        }
    }
}

/// `first_newline` is the only position with the properties proved above.
pub proof fn lemma_first_newline_at(s: Seq<char>, k: int)
    requires
        0 <= k <= s.len(),
        forall|i: int| 0 <= i < k ==> s[i] != '\n',
        k < s.len() ==> s[k] == '\n',
    ensures
        first_newline(s) == k,
    decreases s.len(),
{
    if s.len() == 0 {
    } else if s[0] == '\n' {
    } else {
        assert forall|i: int| 0 <= i < k - 1 implies s.skip(1)[i] != '\n' by {
            assert(s.skip(1)[i] == s[i + 1]);
        }
        if k < s.len() {
            assert(s.skip(1)[k - 1] == s[k]);
        }
        lemma_first_newline_at(s.skip(1), k - 1);
    }
}

/// Every line of `s`, prefixed with `chars` and terminated by `'\n'`.
///
/// A line is a maximal `'\n'`-free run; a final line lacking its `'\n'`
/// receives one, and the empty text has no lines at all.
pub open spec fn prefixed_lines(s: Seq<char>, chars: Seq<char>) -> Seq<char>
    decreases s.len(),
    via prefixed_lines_decreases
{
    if s.len() == 0 {
        Seq::empty()
    } else {
        let k = first_newline(s);
        let rest = if k == s.len() as int {
            Seq::<char>::empty()
        } else {
            s.skip(k + 1)
        };
        chars + s.take(k) + seq!['\n'] + prefixed_lines(rest, chars)
    }
}

#[via_fn]
proof fn prefixed_lines_decreases(s: Seq<char>, chars: Seq<char>) {
    lemma_first_newline_bounds(s);
}

/// Like `prefixed_lines`, but the first line keeps its bare form.
pub open spec fn tail_prefixed_lines(s: Seq<char>, chars: Seq<char>) -> Seq<char> {
    if s.len() == 0 {
        Seq::empty()
    } else {
        let k = first_newline(s);
        let rest = if k == s.len() as int {
            Seq::<char>::empty()
        } else {
            s.skip(k + 1)
        };
        s.take(k) + seq!['\n'] + prefixed_lines(rest, chars)
    }
}

/// Appends to `result` every line of `s` from character position `from` on,
/// each prefixed with `chars` and terminated by `'\n'`.
fn append_prefixed_lines(result: &mut String, s: &str, from: usize, chars: &str)
    requires
        from <= s@.len(),
    ensures
        final(result)@ == old(result)@ + prefixed_lines(s@.skip(from as int), chars@),
{
    let n = s.unicode_len();
    let mut i: usize = from;
    while i < n
        invariant
            i <= n,
            n == s@.len(),
            old(result)@ + prefixed_lines(s@.skip(from as int), chars@) == result@
                + prefixed_lines(s@.skip(i as int), chars@),
        decreases n - i,
    {
        let ghost pre = result@;
        let mut j: usize = i;
        while j < n && s.get_char(j) != '\n'
            invariant
                i <= j <= n,
                n == s@.len(),
                forall|m: int| i <= m < j ==> s@[m] != '\n',
            decreases n - j,
        {
            j += 1;
        }
        result.append(chars);
        result.append(s.substring_char(i, j));
        result.append("\n");
        let ghost inext = if j < n {
            j + 1
        } else {
            j as int
        };
        proof {
            let tail = s@.skip(i as int);
            assert forall|m: int| 0 <= m < j - i implies tail[m] != '\n' by {
                assert(tail[m] == s@[i + m]);
            }
            if j < n {
                assert(tail[j - i] == s@[j as int]);
            }
            lemma_first_newline_at(tail, j - i);
            assert(tail.take(j - i) =~= s@.subrange(i as int, j as int));
            reveal_strlit("\n");
            assert(("\n")@ =~= seq!['\n']);
            if j < n {
                assert(tail.skip(j - i + 1) =~= s@.skip(inext));
            } else {
                assert(s@.skip(inext) =~= Seq::<char>::empty());
                assert(prefixed_lines(s@.skip(inext), chars@) =~= Seq::<char>::empty());
            }
            assert(pre + prefixed_lines(tail, chars@) =~= result@ + prefixed_lines(
                s@.skip(inext),
                chars@,
            ));
        }
        i = if j < n {
            j + 1
        } else {
            j
        };
    }
    proof {
        assert(s@.skip(n as int) =~= Seq::<char>::empty());
    }
}

/// Prefixes every line of `string` with `chars`; each line, a final one
/// included, comes out `'\n'`-terminated.
pub fn start_with(string: String, chars: &str) -> (r: String)
    ensures
        r@ == prefixed_lines(string@, chars@),
{
    let mut result = String::new();
    append_prefixed_lines(&mut result, string.as_str(), 0, chars);
    proof {
        assert(string@.skip(0) =~= string@);
    }
    result
}

/// Prefixes every line of `string` but the first with `chars`; each line
/// comes out `'\n'`-terminated.
pub fn start_other_lines_with(string: String, chars: &str) -> (r: String)
    ensures
        r@ == tail_prefixed_lines(string@, chars@),
{
    let s = string.as_str();
    let n = s.unicode_len();
    let mut result = String::new();
    if n == 0 {
        return result;
    }
    let mut j: usize = 0;
    while j < n && s.get_char(j) != '\n'
        invariant
            j <= n,
            n == s@.len(),
            forall|m: int| 0 <= m < j ==> s@[m] != '\n',
        decreases n - j,
    {
        j += 1;
    }
    result.append(s.substring_char(0, j));
    result.append("\n");
    proof {
        lemma_first_newline_at(s@, j as int);
        assert(s@.take(j as int) =~= s@.subrange(0, j as int));
        reveal_strlit("\n");
        assert(("\n")@ =~= seq!['\n']);
    }
    if j < n {
        append_prefixed_lines(&mut result, s, j + 1, chars);
    } else {
        proof {
            assert(prefixed_lines(Seq::<char>::empty(), chars@) =~= Seq::<char>::empty());
        }
    }
    result
}

/// Whether two configurations stand for the same pieces of text, position by
/// position.  Equal pieces give equal renderings, whatever the items.
pub open spec fn same_pieces(a: Formatter, b: Formatter) -> bool {
    &&& opt_str(a.very_start) == opt_str(b.very_start)
    &&& opt_str(a.very_end) == opt_str(b.very_end)
    &&& opt_str(a.start) == opt_str(b.start)
    &&& opt_str(a.end) == opt_str(b.end)
    &&& opt_str(a.middle) == opt_str(b.middle)
    &&& a.new_line_chars.is_some() == b.new_line_chars.is_some()
    &&& opt_str(a.new_line_chars) == opt_str(b.new_line_chars)
}

/// The view of each rendered item.
pub open spec fn option_views(parts: Seq<Option<String>>) -> Seq<Option<Seq<char>>> {
    parts.map_values(
        |p: Option<String>|
            match p {
                Option::Some(s) => Option::Some(s@),
                Option::None => Option::<Seq<char>>::None,
            },
    )
}

impl<'a> Formatter<'a> {
    /// What one rendered item contributes, given the text accumulated so far:
    /// the separator (only once something already stands there), the per-item
    /// wrapper, and the item itself with its continuation lines indented.
    pub open spec fn piece(self, acc: Seq<char>, item: Seq<char>) -> Seq<char> {
        let content = match self.new_line_chars {
            Option::Some(ch) => tail_prefixed_lines(item, ch@),
            Option::None => item,
        };
        (if acc.len() == 0 {
            Seq::<char>::empty()
        } else {
            opt_str(self.middle)
        }) + opt_str(self.start) + content + opt_str(self.end)
    }

    /// Left fold of `piece` over the rendered items; `None` items are
    /// skipped and contribute nothing, separator included.
    pub open spec fn joined(self, parts: Seq<Option<Seq<char>>>) -> Seq<char>
        decreases parts.len(),
    {
        if parts.len() == 0 {
            Seq::empty()
        } else {
            let acc = self.joined(parts.drop_last());
            match parts.last() {
                Option::None => acc,
                Option::Some(item) => acc + self.piece(acc, item),
            }
        }
    }

    /// The whole rendering: the joined items inside the outer wrapper.
    pub open spec fn formatted(self, parts: Seq<Option<Seq<char>>>) -> Seq<char> {
        opt_str(self.very_start) + self.joined(parts) + opt_str(self.very_end)
    }

    /// Over an empty item sequence the rendering is exactly the outer
    /// wrapper: `very_start` directly followed by `very_end`.
    pub proof fn lemma_formatted_empty(self)
        ensures
            self.formatted(Seq::empty()) == opt_str(self.very_start) + opt_str(self.very_end),
    {
        assert(self.formatted(Seq::empty()) =~= opt_str(self.very_start) + opt_str(
            self.very_end,
        ));
    }

    /// An item that renders to nothing leaves no trace: inserting such an
    /// item at any position leaves the join unchanged — in particular, no
    /// stray separator appears for it.
    pub proof fn lemma_none_leaves_no_trace(self, parts: Seq<Option<Seq<char>>>, i: int)
        requires
            0 <= i <= parts.len(),
        ensures
            self.joined(parts.insert(i, Option::None)) == self.joined(parts),
        decreases parts.len(),
    {
        let ins = parts.insert(i, Option::None);
        if i == parts.len() {
            assert(ins.drop_last() =~= parts);
            assert(ins.last() == Option::<Seq<char>>::None);
        } else {
            assert(parts.len() > 0);
            assert(ins.drop_last() =~= parts.drop_last().insert(i, Option::None));
            assert(ins.last() == parts.last());
            self.lemma_none_leaves_no_trace(parts.drop_last(), i);
        }
    }

    /// Appends the piece of configuration to `out`, or nothing for `None`.
    fn append_opt(out: &mut String, o: Option<&str>)
        ensures
            final(out)@ == old(out)@ + opt_str(o),
    {
        match o {
            Option::Some(s) => out.append(s),
            Option::None => {
                proof {
                    assert(old(out)@ + opt_str(o) =~= old(out)@);
                }
            },
        }
    }

    /// Joins a sequence of already-rendered items: `None` entries are
    /// filtered out, without a separator of their own.
    pub fn fmt_rendered(&self, parts: &Vec<Option<String>>) -> (r: String)
        ensures
            r@ == self.formatted(option_views(parts@)),
    {
        let ghost views = option_views(parts@);
        let mut acc = String::new();
        let mut idx: usize = 0;
        while idx < parts.len()
            invariant
                idx <= parts@.len(),
                views == option_views(parts@),
                acc@ == self.joined(views.take(idx as int)),
            decreases parts@.len() - idx,
        {
            proof {
                assert(views.take(idx + 1).drop_last() =~= views.take(idx as int));
                assert(views.take(idx + 1).last() == views[idx as int]);
            }
            let ghost pre = acc@;
            match &parts[idx] {
                Option::None => {},
                Option::Some(item) => {
                    let content: String = match self.new_line_chars {
                        Option::Some(ch) => start_other_lines_with(item.clone(), ch),
                        Option::None => item.clone(),
                    };
                    if !acc.as_str().is_empty() {
                        Self::append_opt(&mut acc, self.middle);
                    }
                    Self::append_opt(&mut acc, self.start);
                    acc.append(content.as_str());
                    Self::append_opt(&mut acc, self.end);
                    proof {
                        assert(acc@ =~= pre + self.piece(pre, item@));
                    }
                },
            }
            proof {
                assert(acc@ == self.joined(views.take(idx + 1)));
            }
            idx += 1;
        }
        proof {
            assert(views.take(parts@.len() as int) =~= views);
        }
        let mut result = String::new();
        Self::append_opt(&mut result, self.very_start);
        result.append(acc.as_str());
        Self::append_opt(&mut result, self.very_end);
        proof {
            assert(result@ =~= self.formatted(views));
        }
        result
    }

    /// Renders each item with `format_function`, then joins the results.
    ///
    /// Whatever the renderer returns for each item — and `call_ensures` is
    /// all that is known of it — the result is the join of those returns; a
    /// renderer that yields `None` leaves no trace of its item. An empty item
    /// sequence yields exactly the outer wrapper.
    pub fn fmt<Item, F: Fn(&Item) -> Option<String>>(&self, args: &Vec<Item>, format_function: F) -> (r:
        String)
        requires
            forall|i: int| 0 <= i < args@.len() ==> call_requires(format_function, (&args@[i],)),
        ensures
            exists|parts: Seq<Option<String>>|
                {
                    &&& #[trigger] parts.len() == args@.len()
                    &&& forall|i: int|
                        0 <= i < parts.len() ==> call_ensures(
                            format_function,
                            (&args@[i],),
                            parts[i],
                        )
                    &&& r@ == self.formatted(option_views(parts))
                },
            args@.len() == 0 ==> r@ == opt_str(self.very_start) + opt_str(self.very_end),
    {
        let mut parts: Vec<Option<String>> = Vec::new();
        let mut i: usize = 0;
        while i < args.len()
            invariant
                forall|k: int| 0 <= k < args@.len() ==> call_requires(format_function, (&args@[k],)),
                i <= args@.len(),
                parts@.len() == i,
                forall|k: int|
                    0 <= k < i ==> call_ensures(format_function, (&args@[k],), parts@[k]),
            decreases args@.len() - i,
        {
            let rendered = format_function(&args[i]);
            parts.push(rendered);
            i += 1;
        }
        let r = self.fmt_rendered(&parts);
        proof {
            if args@.len() == 0 {
                assert(option_views(parts@) =~= Seq::<Option<Seq<char>>>::empty());
                assert(opt_str(self.very_start) + Seq::<char>::empty() + opt_str(self.very_end)
                    =~= opt_str(self.very_start) + opt_str(self.very_end));
            }
        }
        r
    }
}

} // verus!
