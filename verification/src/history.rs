//! The command history: the lines entered so far, how many of them have
//! already been appended to the history file, and the numbered listing.
use crate::text::{lines, lines_of, right_aligned, push_right_aligned, string_append, string_push, strings_view};
use vstd::prelude::*;

verus! {

/// The lines entered so far, oldest first.
pub struct History {
    entries: Vec<String>,
    appended: usize,
}

/// The non-empty lines of `ls`, in order.
pub open spec fn nonempty_lines(ls: Seq<Seq<char>>) -> Seq<Seq<char>>
    decreases ls.len(),
{
    if ls.len() == 0 {
        Seq::empty()
    } else if ls.last().len() > 0 {
        nonempty_lines(ls.drop_last()).push(ls.last())
    } else {
        nonempty_lines(ls.drop_last())
    }
}

/// The text of a history file holding `es`: each entry followed by a newline.
pub open spec fn file_text_of(es: Seq<Seq<char>>) -> Seq<char>
    decreases es.len(),
{
    if es.len() == 0 {
        Seq::empty()
    } else {
        file_text_of(es.drop_last()) + es.last() + seq!['\n']
    }
}

/// The index of the first entry that a listing limited to `limit` entries
/// shows, out of `len` entries: the last `limit` ones, or all of them.
pub open spec fn listing_start(len: nat, limit: Option<usize>) -> nat {
    match limit {
        Some(n) => if n >= len {
            0
        } else {
            (len - n) as nat
        },
        None => 0,
    }
}

/// The listing line of the entry with number `number` (counting from 1):
/// the number right-aligned in five columns, two spaces, and the entry.
pub open spec fn history_line(number: nat, entry: Seq<char>) -> Seq<char> {
    right_aligned(number, 5) + seq![' ', ' '] + entry
}

impl History {
    #[verifier::type_invariant]
    spec fn wf(self) -> bool {
        self.appended <= self.entries.len()
    }

    /// The entries, oldest first.
    pub closed spec fn entries_view(&self) -> Seq<Seq<char>> {
        strings_view(self.entries@)
    }

    /// How many of the first entries the history file already holds.
    pub closed spec fn appended_view(&self) -> nat {
        self.appended as nat
    }

    /// Whether `lines` is the numbered listing of the last `limit` entries
    /// (all when `None`), numbered from 1 for the oldest entry.
    pub open spec fn is_listing(&self, limit: Option<usize>, lines: Seq<Seq<char>>) -> bool {
        let start = listing_start(self.entries_view().len(), limit);
        &&& lines.len() == self.entries_view().len() - start
        &&& forall|i: int|
            0 <= i < lines.len() ==> #[trigger] lines[i] == history_line(
                (start + i + 1) as nat,
                self.entries_view()[start + i],
            )
    }

    /// An empty history.
    pub fn new() -> (r: Self)
        ensures
            r.entries_view() == Seq::<Seq<char>>::empty(),
            r.appended_view() == 0,
    {
        let r = Self { entries: Vec::new(), appended: 0 };
        assert(r.entries_view() =~= Seq::<Seq<char>>::empty());
        r
    }

    /// Adds a line at the end.
    pub fn push(&mut self, entry: String)
        ensures
            final(self).entries_view() == old(self).entries_view().push(entry@),
            final(self).appended_view() == old(self).appended_view(),
    {
        proof {
            use_type_invariant(&*self);
        }
        let ghost e = entry@;
        let mut taken = History::new();
        std::mem::swap(&mut taken, self);
        proof {
            use_type_invariant(&taken);
        }
        let History { mut entries, appended } = taken;
        entries.push(entry);
        *self = History { entries, appended };
        assert(self.entries_view() =~= old(self).entries_view().push(e));
    }

    /// The entries, oldest first.
    pub fn entries(&self) -> (r: &Vec<String>)
        ensures
            strings_view(r@) == self.entries_view(),
    {
        &self.entries
    }

    /// Adds the non-empty lines of a history file's text, in order.
    pub fn append_lines(&mut self, contents: &str)
        ensures
            final(self).entries_view() == old(self).entries_view() + nonempty_lines(
                lines_of(contents@),
            ),
            final(self).appended_view() == old(self).appended_view(),
    {
        let ls = lines(contents);
        let ghost lv = strings_view(ls@);
        let mut i: usize = 0;
        assert(nonempty_lines(lv.take(0)) =~= Seq::<Seq<char>>::empty());
        while i < ls.len()
            invariant
                i <= ls@.len(),
                lv == strings_view(ls@),
                lv == lines_of(contents@),
                self.entries_view() == old(self).entries_view() + nonempty_lines(lv.take(i as int)),
                self.appended_view() == old(self).appended_view(),
            decreases ls@.len() - i,
        {
            assert(lv.take(i + 1).drop_last() =~= lv.take(i as int));
            assert(lv.take(i + 1).last() == lv[i as int]);
            if ls[i].as_str().unicode_len() > 0 {
                let ghost before = self.entries_view();
                self.push(ls[i].clone());
                assert(self.entries_view() =~= old(self).entries_view() + nonempty_lines(
                    lv.take(i + 1),
                ));
            }
            i = i + 1;
        }
        assert(lv.take(ls@.len() as int) =~= lv);
    }

    /// The numbered listing of the last `limit` entries (all when `None`),
    /// one line per entry, numbered from 1 for the oldest entry.
    pub fn write_to(&self, limit: Option<usize>) -> (r: Vec<String>)
        ensures
            self.is_listing(limit, strings_view(r@)),
    {
        let len = self.entries.len();
        let start = match limit {
            Some(n) => if n >= len {
                0
            } else {
                len - n
            },
            None => 0,
        };
        let mut r: Vec<String> = Vec::new();
        let mut i = start;
        while i < len
            invariant
                start <= i <= len == self.entries@.len(),
                start == listing_start(self.entries_view().len(), limit),
                r@.len() == i - start,
                forall|k: int|
                    0 <= k < r@.len() ==> #[trigger] r@[k]@ == history_line(
                        (start + k + 1) as nat,
                        self.entries_view()[start + k],
                    ),
            decreases len - i,
        {
            let mut line = String::new();
            push_right_aligned(&mut line, i + 1, 5);
            string_push(&mut line, ' ');
            string_push(&mut line, ' ');
            string_append(&mut line, self.entries[i].as_str());
            assert(line@ =~= history_line((i + 1) as nat, self.entries_view()[i as int]));
            r.push(line);
            i = i + 1;
        }
        assert(strings_view(r@).len() == r@.len());
        r
    }

    /// Records that the history file now holds every entry.
    pub fn mark_all_appended(&mut self)
        ensures
            final(self).entries_view() == old(self).entries_view(),
            final(self).appended_view() == old(self).entries_view().len(),
    {
        self.appended = self.entries.len();
    }

    fn text_of_range(&self, from: usize) -> (r: String)
        requires
            from <= self.entries_view().len(),
        ensures
            r@ == file_text_of(self.entries_view().subrange(from as int, self.entries_view().len() as int)),
    {
        let ghost es = self.entries_view();
        let mut r = String::new();
        let mut i = from;
        assert(es.subrange(from as int, from as int) =~= Seq::<Seq<char>>::empty());
        while i < self.entries.len()
            invariant
                from <= i <= self.entries@.len(),
                es == self.entries_view(),
                r@ == file_text_of(es.subrange(from as int, i as int)),
            decreases self.entries@.len() - i,
        {
            string_append(&mut r, self.entries[i].as_str());
            string_push(&mut r, '\n');
            assert(es.subrange(from as int, i + 1).drop_last() =~= es.subrange(from as int, i as int));
            i = i + 1;
            assert(r@ =~= file_text_of(es.subrange(from as int, i as int)));
        }
        r
    }

    /// The text of a history file holding every entry, one per line.
    pub fn file_text(&self) -> (r: String)
        ensures
            r@ == file_text_of(self.entries_view()),
    {
        let r = self.text_of_range(0);
        assert(self.entries_view().subrange(0, self.entries_view().len() as int) =~= self.entries_view());
        r
    }

    /// The text of the entries the history file does not hold yet, one per
    /// line; afterwards they count as appended.
    pub fn take_unappended(&mut self) -> (r: String)
        ensures
            r@ == file_text_of(
                old(self).entries_view().subrange(
                    old(self).appended_view() as int,
                    old(self).entries_view().len() as int,
                ),
            ),
            final(self).entries_view() == old(self).entries_view(),
            final(self).appended_view() == old(self).entries_view().len(),
    {
        proof {
            use_type_invariant(&*self);
        }
        let r = self.text_of_range(self.appended);
        self.appended = self.entries.len();
        r
    }
}

} // verus!

verus! {

/// Whether `e` can stand as one line of a history file and be read back
/// unchanged: not empty, no newline, no carriage return at its end.
pub open spec fn is_storable(e: Seq<char>) -> bool {
    &&& e.len() > 0
    &&& forall|k: int| 0 <= k < e.len() ==> #[trigger] e[k] != '\n'
    &&& e.last() != '\r'
}

proof fn lemma_file_text_ends(es: Seq<Seq<char>>)
    ensures
        file_text_of(es).len() > 0 ==> file_text_of(es).last() == '\n',
{
    if es.len() > 0 {
        let t = file_text_of(es.drop_last()) + es.last() + seq!['\n'];
        assert(t.last() == '\n');
    }
}

proof fn lemma_lines_of_file_text(es: Seq<Seq<char>>)
    requires
        forall|k: int| 0 <= k < es.len() ==> is_storable(#[trigger] es[k]),
    ensures
        lines_of(file_text_of(es)) == es,
    decreases es.len(),
{
    if es.len() == 0 {
        assert(lines_of(Seq::empty()) == Seq::<Seq<char>>::empty());
    } else {
        let init = es.drop_last();
        let e = es.last();
        assert forall|k: int| 0 <= k < init.len() implies is_storable(#[trigger] init[k]) by {
            assert(init[k] == es[k]);
        }
        lemma_lines_of_file_text(init);
        let p = file_text_of(init);
        let q = e.push('\n');
        assert(file_text_of(es) =~= p + q);
        lemma_file_text_ends(init);
        crate::text::lemma_lines_split(p, q, 0, 0, Seq::empty());
        assert(is_storable(es[es.len() - 1]));
        crate::text::lemma_one_line(e, 0, lines_of(p));
        assert(crate::text::without_cr(e) == e);
        assert(init.push(e) =~= es);
    }
}

proof fn lemma_nonempty_all(es: Seq<Seq<char>>)
    requires
        forall|k: int| 0 <= k < es.len() ==> (#[trigger] es[k]).len() > 0,
    ensures
        nonempty_lines(es) == es,
    decreases es.len(),
{
    if es.len() > 0 {
        let init = es.drop_last();
        assert forall|k: int| 0 <= k < init.len() implies (#[trigger] init[k]).len() > 0 by {
            assert(init[k] == es[k]);
        }
        lemma_nonempty_all(init);
        assert(es[es.len() - 1].len() > 0);
        assert(init.push(es.last()) =~= es);
    }
}

/// Reading back a written history file gives the same entries, when every
/// entry is storable (not empty, no newline, no carriage return at its end).
pub proof fn law_history_file_read_back(es: Seq<Seq<char>>)
    requires
        forall|k: int| 0 <= k < es.len() ==> is_storable(#[trigger] es[k]),
    ensures
        nonempty_lines(lines_of(file_text_of(es))) == es,
{
    lemma_lines_of_file_text(es);
    assert forall|k: int| 0 <= k < es.len() implies (#[trigger] es[k]).len() > 0 by {
        assert(is_storable(es[k]));
    }
    lemma_nonempty_all(es);
}

/// Appending the entries from `k` on to a file holding the first `k` entries
/// gives the file of the whole history.
pub proof fn law_append_completes_file(es: Seq<Seq<char>>, k: int)
    requires
        0 <= k <= es.len(),
    ensures
        file_text_of(es.subrange(0, k)) + file_text_of(es.subrange(k, es.len() as int)) == file_text_of(es),
    decreases es.len(),
{
    if k == es.len() {
        assert(es.subrange(0, k) =~= es);
        assert(es.subrange(k, es.len() as int) =~= Seq::<Seq<char>>::empty());
        assert(file_text_of(es) + Seq::<char>::empty() =~= file_text_of(es));
    } else {
        let init = es.drop_last();
        law_append_completes_file(init, k);
        assert(init.subrange(0, k) =~= es.subrange(0, k));
        let tail = es.subrange(k, es.len() as int);
        assert(tail.drop_last() =~= init.subrange(k, init.len() as int));
        assert(tail.last() == es.last());
        assert(file_text_of(tail) == file_text_of(tail.drop_last()) + tail.last() + seq!['\n']);
        assert(file_text_of(es.subrange(0, k)) + file_text_of(tail) =~= file_text_of(es));
    }
}

/// A listing limited to the last entries is the tail of the full listing.
pub proof fn law_limited_listing_is_tail(h: History, limit: Option<usize>, part: Seq<Seq<char>>, full: Seq<Seq<char>>)
    requires
        h.is_listing(limit, part),
        h.is_listing(None, full),
    ensures
        part == full.subrange(full.len() - part.len(), full.len() as int),
{
    let start = listing_start(h.entries_view().len(), limit);
    assert forall|i: int| 0 <= i < part.len() implies part[i] == full.subrange(
        full.len() - part.len(),
        full.len() as int,
    )[i] by {
        assert(part[i] == history_line((start + i + 1) as nat, h.entries_view()[start + i]));
        assert(full[start + i] == history_line((0 + (start + i) + 1) as nat, h.entries_view()[0 + (start + i)]));
    }
    assert(part =~= full.subrange(full.len() - part.len(), full.len() as int));
}

} // verus!
