//! Tab completion: the candidates for a command name, the words around the
//! cursor when an argument is completed, and the candidates made of a
//! completion script's output or of file names.
use crate::builtins::builtin_commands;
use crate::builtins::registry::builtin_names;
use crate::shell_state::executables::ExecutableMap;
use crate::shell_state::fx_map::{fx_entries, fx_keys};
use crate::text::{chars_of, is_white, is_whitespace, lines, lines_of, owned, string_of, string_of_range, string_push, strings_view};
use vstd::prelude::*;

verus! {

/// One completion: what the menu shows and what replaces the word.
pub struct Candidate {
    pub display: String,
    pub replacement: String,
}

/// The displays of `cs`, in order.
pub open spec fn displays(cs: Seq<Candidate>) -> Seq<Seq<char>> {
    cs.map_values(|c: Candidate| c.display@)
}

/// The replacements of `cs`, in order.
pub open spec fn replacements(cs: Seq<Candidate>) -> Seq<Seq<char>> {
    cs.map_values(|c: Candidate| c.replacement@)
}

// ---------------------------------------------------------------------------
// Order of strings
// ---------------------------------------------------------------------------

/// Whether `a` comes strictly before `b` in lexicographic order of characters
/// (the order of `str`, since UTF-8 keeps the order of code points).
pub open spec fn lex_lt(a: Seq<char>, b: Seq<char>) -> bool
    decreases a.len(),
{
    if a.len() == 0 {
        b.len() > 0
    } else if b.len() == 0 {
        false
    } else if a[0] < b[0] {
        true
    } else if a[0] == b[0] {
        lex_lt(a.drop_first(), b.drop_first())
    } else {
        false
    }
}

/// Whether `s` is in strictly increasing order.
pub open spec fn strictly_sorted(s: Seq<Seq<char>>) -> bool {
    forall|i: int, j: int| 0 <= i < j < s.len() ==> lex_lt(#[trigger] s[i], #[trigger] s[j])
}

/// No string comes before itself.
pub proof fn lemma_lex_irreflexive(a: Seq<char>)
    ensures
        !lex_lt(a, a),
    decreases a.len(),
{
    if a.len() > 0 {
        lemma_lex_irreflexive(a.drop_first());
    }
}

/// Of two different strings, one comes before the other.
pub proof fn lemma_lex_total(a: Seq<char>, b: Seq<char>)
    ensures
        a == b || lex_lt(a, b) || lex_lt(b, a),
    decreases a.len(),
{
    if a.len() > 0 && b.len() > 0 && a[0] == b[0] {
        lemma_lex_total(a.drop_first(), b.drop_first());
        if a.drop_first() == b.drop_first() {
            assert(a =~= seq![a[0]] + a.drop_first());
            assert(b =~= seq![b[0]] + b.drop_first());
        }
    } else if a.len() == 0 && b.len() == 0 {
        assert(a =~= b);
    }
}

/// The order is transitive.
pub proof fn lemma_lex_transitive(a: Seq<char>, b: Seq<char>, c: Seq<char>)
    requires
        lex_lt(a, b),
        lex_lt(b, c),
    ensures
        lex_lt(a, c),
    decreases a.len(),
{
    if a.len() > 0 && b.len() > 0 && c.len() > 0 && a[0] == b[0] && b[0] == c[0] {
        lemma_lex_transitive(a.drop_first(), b.drop_first(), c.drop_first());
    }
}

/// Whether the characters of `a` come strictly before those of `b`.
fn lex_less(a: &Vec<char>, b: &Vec<char>) -> (r: bool)
    ensures
        r == lex_lt(a@, b@),
{
    let mut i: usize = 0;
    assert(a@.skip(0) =~= a@);
    assert(b@.skip(0) =~= b@);
    while i < a.len() && i < b.len() && a[i] == b[i]
        invariant
            i <= a@.len(),
            i <= b@.len(),
            lex_lt(a@, b@) == lex_lt(a@.skip(i as int), b@.skip(i as int)),
        decreases a@.len() - i,
    {
        assert(a@.skip(i as int).drop_first() =~= a@.skip(i + 1));
        assert(b@.skip(i as int).drop_first() =~= b@.skip(i + 1));
        i = i + 1;
    }
    if i == a.len() {
        i < b.len()
    } else if i == b.len() {
        false
    } else {
        a[i] < b[i]
    }
}

/// Whether `a` begins with `word`.
pub open spec fn has_prefix(a: Seq<char>, word: Seq<char>) -> bool {
    word.len() <= a.len() && a.take(word.len() as int) == word
}

fn starts_with(a: &Vec<char>, word: &Vec<char>) -> (r: bool)
    ensures
        r == has_prefix(a@, word@),
{
    if word.len() > a.len() {
        return false;
    }
    let mut i: usize = 0;
    while i < word.len()
        invariant
            i <= word@.len() <= a@.len(),
            forall|k: int| 0 <= k < i ==> a@[k] == word@[k],
        decreases word@.len() - i,
    {
        if a[i] != word[i] {
            assert(a@.take(word@.len() as int)[i as int] != word@[i as int]);
            return false;
        }
        i = i + 1;
    }
    assert(a@.take(word@.len() as int) =~= word@);
    true
}

// ---------------------------------------------------------------------------
// Command names
// ---------------------------------------------------------------------------

/// The names that complete `word` as a command: builtins and executables
/// that begin with it.
pub open spec fn command_names(word: Seq<char>, exes: Map<Seq<char>, Seq<char>>) -> Set<Seq<char>> {
    Set::new(|n: Seq<char>| (builtin_names().contains(n) || exes.contains_key(n)) && has_prefix(n, word))
}

/// A sorted list of distinct strings, with each string's characters.
struct SortedNames {
    names: Vec<Vec<char>>,
}

impl SortedNames {
    spec fn view_seq(&self) -> Seq<Seq<char>> {
        self.names@.map_values(|v: Vec<char>| v@)
    }

    /// Adds `x` unless it is already there, keeping the order.
    fn add(&mut self, x: Vec<char>)
        requires
            strictly_sorted(old(self).view_seq()),
        ensures
            strictly_sorted(final(self).view_seq()),
            final(self).view_seq().to_set() == old(self).view_seq().to_set().insert(x@),
    {
        let ghost s = self.view_seq();
        let n = self.names.len();
        let mut p: usize = 0;
        while p < n && lex_less(&self.names[p], &x)
            invariant
                p <= n == self.names@.len(),
                s == self.view_seq(),
                forall|k: int| 0 <= k < p ==> lex_lt(#[trigger] s[k], x@),
            decreases n - p,
        {
            p = p + 1;
        }
        if p < n {
            let same = !lex_less(&x, &self.names[p]);
            if same {
                proof {
                    lemma_lex_total(s[p as int], x@);
                }
                assert(s[p as int] == x@);
                assert(s.to_set() =~= s.to_set().insert(x@));
                return;
            }
        }
        proof {
            assert forall|k: int| p <= k < n implies lex_lt(x@, #[trigger] s[k]) by {
                lemma_lex_total(s[p as int], x@);
                if k > p {
                    lemma_lex_transitive(x@, s[p as int], s[k]);
                }
            }
        }
        let ghost xv = x@;
        self.names.insert(p, x);
        let ghost t = self.view_seq();
        assert(t =~= s.insert(p as int, xv));
        assert forall|i: int, j: int| 0 <= i < j < t.len() implies lex_lt(#[trigger] t[i], #[trigger] t[j]) by {
            if j < p {
            } else if j == p {
            } else if i < p {
                assert(t[j] == s[j - 1]);
                lemma_lex_transitive(t[i], xv, t[j]);
            } else if i == p {
                assert(t[j] == s[j - 1]);
            } else {
                assert(t[i] == s[i - 1]);
                assert(t[j] == s[j - 1]);
            }
        }
        assert(t.to_set() =~= s.to_set().insert(xv)) by {
            assert forall|e: Seq<char>| t.to_set().contains(e) implies s.to_set().insert(xv).contains(e) by {
                let i = choose|i: int| 0 <= i < t.len() && t[i] == e;
                if i > p {
                    assert(s[i - 1] == e);
                } else if i < p {
                    assert(s[i] == e);
                }
            }
            assert forall|e: Seq<char>| s.to_set().insert(xv).contains(e) implies t.to_set().contains(e) by {
                if e == xv {
                    assert(t[p as int] == e);
                } else {
                    let i = choose|i: int| 0 <= i < s.len() && s[i] == e;
                    if i < p {
                        assert(t[i] == e);
                    } else {
                        assert(t[i + 1] == e);
                    }
                }
            }
        }
    }
}

proof fn lemma_take_one_more(s: Seq<Seq<char>>, i: int)
    requires
        0 <= i < s.len(),
    ensures
        forall|n: Seq<char>| #[trigger] s.take(i + 1).contains(n) <==> (s.take(i).contains(n) || n == s[i]),
{
    assert(s.take(i + 1) =~= s.take(i).push(s[i]));
    assert forall|n: Seq<char>| #[trigger] s.take(i + 1).contains(n) <==> (s.take(i).contains(n) || n == s[i]) by {
        let t = s.take(i);
        if t.push(s[i]).contains(n) {
            let k = choose|k: int| 0 <= k < t.len() + 1 && #[trigger] t.push(s[i])[k] == n;
            if k < t.len() {
                assert(t[k] == n);
            }
        }
        if t.contains(n) {
            let k = choose|k: int| 0 <= k < t.len() && #[trigger] t[k] == n;
            assert(t.push(s[i])[k] == n);
        }
        if n == s[i] {
            assert(t.push(s[i])[t.len() as int] == n);
        }
    }
}

/// The candidates for completing a command name: each builtin and executable
/// whose name begins with `word`, once, in increasing order, replaced by the
/// name and a space.
pub fn command_candidates(word: &str, executables: &ExecutableMap) -> (r: Vec<Candidate>)
    ensures
        strictly_sorted(displays(r@)),
        displays(r@).to_set() == command_names(word@, fx_entries(*executables)),
        forall|i: int| 0 <= i < r@.len() ==> #[trigger] replacements(r@)[i] == displays(r@)[i].push(' '),
{
    let w = chars_of(word);
    let builtins = builtin_commands();
    let exe_names = fx_keys(executables);
    let ghost exes = fx_entries(*executables);
    let ghost bs = builtins@.map_values(|s: &str| s@);
    let ghost es = exe_names@.map_values(|k: String| k@);
    let mut sorted = SortedNames { names: Vec::new() };
    assert(sorted.view_seq().to_set() =~= Set::<Seq<char>>::empty());
    let mut i: usize = 0;
    while i < builtins.len()
        invariant
            i <= builtins@.len(),
            bs == builtins@.map_values(|s: &str| s@),
            bs == builtin_names(),
            w@ == word@,
            strictly_sorted(sorted.view_seq()),
            sorted.view_seq().to_set() == Set::new(
                |n: Seq<char>| bs.take(i as int).contains(n) && has_prefix(n, word@),
            ),
        decreases builtins@.len() - i,
    {
        let c = chars_of(builtins[i]);
        let ghost prev = sorted.view_seq().to_set();
        if starts_with(&c, &w) {
            sorted.add(c);
        }
        proof {
            lemma_take_one_more(bs, i as int);
        }
        assert(sorted.view_seq().to_set() =~= Set::new(
            |n: Seq<char>| bs.take(i + 1).contains(n) && has_prefix(n, word@),
        ));
        i = i + 1;
    }
    assert(bs.take(builtins@.len() as int) =~= bs);
    let mut j: usize = 0;
    while j < exe_names.len()
        invariant
            j <= exe_names@.len(),
            es == exe_names@.map_values(|k: String| k@),
            es.to_set() == exes.dom(),
            bs == builtin_names(),
            exes == fx_entries(*executables),
            w@ == word@,
            strictly_sorted(sorted.view_seq()),
            sorted.view_seq().to_set() == Set::new(
                |n: Seq<char>| (bs.contains(n) || es.take(j as int).contains(n)) && has_prefix(n, word@),
            ),
        decreases exe_names@.len() - j,
    {
        let c = chars_of(exe_names[j].as_str());
        if starts_with(&c, &w) {
            sorted.add(c);
        }
        proof {
            lemma_take_one_more(es, j as int);
        }
        assert(sorted.view_seq().to_set() =~= Set::new(
            |n: Seq<char>| (bs.contains(n) || es.take(j + 1).contains(n)) && has_prefix(n, word@),
        ));
        j = j + 1;
    }
    assert(es.take(exe_names@.len() as int) =~= es);
    assert(sorted.view_seq().to_set() =~= command_names(word@, exes)) by {
        assert forall|n: Seq<char>| es.contains(n) <==> exes.contains_key(n) by {
            assert(es.to_set().contains(n) <==> es.contains(n));
        }
    }
    let ghost sv = sorted.view_seq();
    let mut r: Vec<Candidate> = Vec::new();
    let mut k: usize = 0;
    while k < sorted.names.len()
        invariant
            k <= sorted.names@.len(),
            sv == sorted.view_seq(),
            r@.len() == k,
            forall|m: int| 0 <= m < k ==> #[trigger] displays(r@)[m] == sv[m],
            forall|m: int| 0 <= m < k ==> #[trigger] replacements(r@)[m] == sv[m].push(' '),
        decreases sorted.names@.len() - k,
    {
        let display = string_of(&sorted.names[k]);
        let mut replacement = string_of(&sorted.names[k]);
        string_push(&mut replacement, ' ');
        let ghost ds = displays(r@);
        let ghost rs = replacements(r@);
        r.push(Candidate { display, replacement });
        assert(displays(r@) =~= ds.push(sv[k as int]));
        assert(replacements(r@) =~= rs.push(sv[k as int].push(' ')));
        k = k + 1;
    }
    assert(displays(r@) =~= sv);
    r
}

// ---------------------------------------------------------------------------
// Arguments
// ---------------------------------------------------------------------------

/// The whitespace-separated words of `s[i..]`, appended to `acc`, when the
/// word being read so far is `cur` (the splitting of `str::split_whitespace`).
pub open spec fn tokens_from(s: Seq<char>, i: int, acc: Seq<Seq<char>>, cur: Seq<char>) -> Seq<Seq<char>>
    decreases s.len() - i,
{
    if i >= s.len() {
        if cur.len() > 0 {
            acc.push(cur)
        } else {
            acc
        }
    } else if is_white(s[i]) {
        if cur.len() > 0 {
            tokens_from(s, i + 1, acc.push(cur), Seq::empty())
        } else {
            tokens_from(s, i + 1, acc, cur)
        }
    } else {
        tokens_from(s, i + 1, acc, cur.push(s[i]))
    }
}

/// The whitespace-separated words of `s`.
pub open spec fn tokens_of(s: Seq<char>) -> Seq<Seq<char>> {
    tokens_from(s, 0, Seq::empty(), Seq::empty())
}

/// The whitespace-separated words of `cs[..end]`.
fn tokens(cs: &Vec<char>, end: usize) -> (r: Vec<String>)
    requires
        end <= cs@.len(),
    ensures
        strings_view(r@) == tokens_of(cs@.take(end as int)),
{
    let ghost s = cs@.take(end as int);
    let mut r: Vec<String> = Vec::new();
    let mut cur = String::new();
    let mut i: usize = 0;
    assert(strings_view(r@) =~= Seq::<Seq<char>>::empty());
    assert(cur@ =~= Seq::<char>::empty());
    while i < end
        invariant
            i <= end <= cs@.len(),
            s == cs@.take(end as int),
            tokens_from(s, i as int, strings_view(r@), cur@) == tokens_of(s),
        decreases end - i,
    {
        assert(s[i as int] == cs@[i as int]);
        if is_whitespace(cs[i]) {
            if cur.as_str().unicode_len() > 0 {
                let ghost before = strings_view(r@);
                let t = cur;
                cur = String::new();
                r.push(t);
                assert(strings_view(r@) =~= before.push(t@));
                assert(cur@ =~= Seq::<char>::empty());
            }
        } else {
            string_push(&mut cur, cs[i]);
        }
        i = i + 1;
    }
    if cur.as_str().unicode_len() > 0 {
        let ghost before = strings_view(r@);
        r.push(cur);
        assert(strings_view(r@) =~= before.push(cur@));
    }
    r
}

/// The position of the last space in `s`, or `-1`.
pub open spec fn last_space(s: Seq<char>) -> int
    decreases s.len(),
{
    if s.len() == 0 {
        -1
    } else if s.last() == ' ' {
        s.len() - 1
    } else {
        last_space(s.drop_last())
    }
}

proof fn lemma_last_space(s: Seq<char>, i: int)
    requires
        -1 <= i < s.len(),
        forall|j: int| i < j < s.len() ==> s[j] != ' ',
        i == -1 || s[i] == ' ',
    ensures
        last_space(s) == i,
    decreases s.len(),
{
    if s.len() > 0 && s.len() - 1 != i {
        let t = s.drop_last();
        assert forall|j: int| i < j < t.len() implies t[j] != ' ' by {
            assert(t[j] == s[j]);
        }
        if i >= 0 {
            assert(t[i] == s[i]);
        }
        lemma_last_space(t, i);
    }
}

/// Where the completed argument stands in the text before the cursor.
pub struct ArgumentContext {
    /// The command whose argument is completed.
    pub command: String,
    /// Where the argument begins, in characters.
    pub word_start: usize,
    /// The argument typed so far.
    pub current_word: String,
    /// The word before it (the command when there is none).
    pub prev_word: String,
}

/// The first word of `s`, or the empty word.
pub open spec fn first_token(s: Seq<char>) -> Seq<char> {
    if tokens_of(s).len() > 0 {
        tokens_of(s)[0]
    } else {
        Seq::empty()
    }
}

/// The context of completing an argument in `word` (the text before the
/// cursor), or `None` when it holds no space, so that the command name
/// itself is completed. The argument begins after the last space; the word
/// before it is the last word before that point, or the command.
pub open spec fn argument_context(word: Seq<char>) -> Option<(Seq<char>, int, Seq<char>, Seq<char>)> {
    if last_space(word) < 0 {
        None
    } else {
        let start = last_space(word) + 1;
        let command = first_token(word);
        let before = tokens_of(word.take(start));
        Some(
            (
                command,
                start,
                word.subrange(start, word.len() as int),
                if before.len() > 0 {
                    before.last()
                } else {
                    command
                },
            ),
        )
    }
}

/// Splits the text before the cursor into the command, the argument being
/// completed and the word before it; `None` when no argument is being
/// completed (the text holds no space).
pub fn analyze_argument(word: &str) -> (r: Option<ArgumentContext>)
    ensures
        match r {
            Some(c) => argument_context(word@) == Some(
                (c.command@, c.word_start as int, c.current_word@, c.prev_word@),
            ),
            None => argument_context(word@).is_none(),
        },
{
    let cs = chars_of(word);
    let n = cs.len();
    let mut k: usize = n;
    while k > 0 && cs[k - 1] != ' '
        invariant
            k <= n == cs@.len(),
            forall|j: int| k <= j < n ==> cs@[j] != ' ',
        decreases k,
    {
        k = k - 1;
    }
    proof {
        lemma_last_space(cs@, k - 1);
    }
    if k == 0 {
        return None;
    }
    let all = tokens(&cs, n);
    assert(cs@.take(n as int) =~= cs@);
    let command = if all.len() > 0 {
        all[0].clone()
    } else {
        String::new()
    };
    let before = tokens(&cs, k);
    let prev_word = if before.len() > 0 {
        before[before.len() - 1].clone()
    } else {
        command.clone()
    };
    let current_word = string_of_range(&cs, k, n);
    Some(ArgumentContext { command, word_start: k, current_word, prev_word })
}

// ---------------------------------------------------------------------------
// Script output and file names
// ---------------------------------------------------------------------------

/// The candidates a completion script's output gives: one per line, each
/// replaced by the line and a space; `None` when there is no line.
pub fn script_candidates(output: &str) -> (r: Option<Vec<Candidate>>)
    ensures
        match r {
            Some(cs) => {
                &&& lines_of(output@).len() > 0
                &&& displays(cs@) == lines_of(output@)
                &&& forall|i: int| 0 <= i < cs@.len() ==> #[trigger] replacements(cs@)[i] == lines_of(output@)[i].push(' ')
            },
            None => lines_of(output@).len() == 0,
        },
{
    let ls = lines(output);
    let ghost lv = strings_view(ls@);
    let mut r: Vec<Candidate> = Vec::new();
    let mut k: usize = 0;
    while k < ls.len()
        invariant
            k <= ls@.len(),
            lv == strings_view(ls@),
            r@.len() == k,
            forall|m: int| 0 <= m < k ==> #[trigger] displays(r@)[m] == lv[m],
            forall|m: int| 0 <= m < k ==> #[trigger] replacements(r@)[m] == lv[m].push(' '),
        decreases ls@.len() - k,
    {
        let display = ls[k].clone();
        let mut replacement = ls[k].clone();
        string_push(&mut replacement, ' ');
        let ghost ds = displays(r@);
        let ghost rs = replacements(r@);
        r.push(Candidate { display, replacement });
        assert(displays(r@) =~= ds.push(lv[k as int]));
        assert(replacements(r@) =~= rs.push(lv[k as int].push(' ')));
        k = k + 1;
    }
    if r.len() == 0 {
        None
    } else {
        assert(displays(r@) =~= lv);
        Some(r)
    }
}

/// How a file-name completion is offered: a directory (its replacement ends
/// with `/`) is shown with a trailing `/` and left open; any other name gets
/// a space after it.
pub open spec fn file_candidate_of(display: Seq<char>, replacement: Seq<char>) -> (Seq<char>, Seq<char>) {
    if replacement.len() > 0 && replacement.last() == '/' {
        (display.push('/'), replacement)
    } else {
        (display, replacement.push(' '))
    }
}

/// Adjusts a file-name completion as [`file_candidate_of`] describes.
pub fn file_candidate(display: String, replacement: String) -> (r: Candidate)
    ensures
        (r.display@, r.replacement@) == file_candidate_of(display@, replacement@),
{
    let cs = chars_of(replacement.as_str());
    let n = cs.len();
    if n > 0 && cs[n - 1] == '/' {
        let mut d = display;
        string_push(&mut d, '/');
        Candidate { display: d, replacement }
    } else {
        let mut rep = replacement;
        string_push(&mut rep, ' ');
        Candidate { display, replacement: rep }
    }
}

} // verus!

verus! {

proof fn lemma_tokens_trailing_blank(t: Seq<char>, i: int, acc: Seq<Seq<char>>, cur: Seq<char>)
    requires
        0 <= i <= t.len(),
    ensures
        tokens_from(t.push(' '), i, acc, cur) == tokens_from(t, i, acc, cur),
    decreases t.len() - i,
{
    let s = t.push(' ');
    if i == t.len() {
        assert(is_white(s[i]));
        if cur.len() > 0 {
            assert(tokens_from(s, i + 1, acc.push(cur), Seq::empty()) == acc.push(cur));
        } else {
            assert(tokens_from(s, i + 1, acc, cur) == acc);
        }
    } else {
        assert(s[i] == t[i]);
        if is_white(t[i]) {
            if cur.len() > 0 {
                lemma_tokens_trailing_blank(t, i + 1, acc.push(cur), Seq::empty());
            } else {
                lemma_tokens_trailing_blank(t, i + 1, acc, cur);
            }
        } else {
            lemma_tokens_trailing_blank(t, i + 1, acc, cur.push(t[i]));
        }
    }
}

/// A blank after the words `t` starts a new, empty argument; the command is
/// the first word of `t` and the word before the argument is the last word
/// of `t`.
pub proof fn law_previous_word_after_blank(t: Seq<char>)
    requires
        tokens_of(t).len() > 0,
    ensures
        argument_context(t.push(' ')) == Some(
            (tokens_of(t)[0], t.len() + 1 as int, Seq::<char>::empty(), tokens_of(t).last()),
        ),
{
    let w = t.push(' ');
    lemma_tokens_trailing_blank(t, 0, Seq::empty(), Seq::empty());
    assert(last_space(w) == t.len());
    assert(w.take(t.len() + 1 as int) =~= w);
    assert(w.subrange(t.len() + 1 as int, w.len() as int) =~= Seq::<char>::empty());
}

/// Where an argument is completed, the text before the cursor is the text up
/// to the argument followed by the argument, which holds no space and begins
/// right after a space; the command is the first word of the whole text, and
/// the word before the argument is the last word strictly before the
/// argument's start (the command when there is none).
pub proof fn law_argument_parts(w: Seq<char>)
    ensures
        argument_context(w) matches Some((c, st, cur, pw)) ==> {
            &&& 1 <= st <= w.len()
            &&& w[st - 1] == ' '
            &&& w == w.take(st) + cur
            &&& forall|k: int| 0 <= k < cur.len() ==> #[trigger] cur[k] != ' '
            &&& c == first_token(w)
            &&& pw == if tokens_of(w.take(st)).len() > 0 {
                tokens_of(w.take(st)).last()
            } else {
                c
            }
        },
        argument_context(w).is_none() <==> forall|k: int| 0 <= k < w.len() ==> #[trigger] w[k] != ' ',
{
    lemma_last_space_props(w);
    if argument_context(w) is Some {
        let st = last_space(w) + 1;
        let cur = w.subrange(st, w.len() as int);
        assert(w =~= w.take(st) + cur);
        assert forall|k: int| 0 <= k < cur.len() implies #[trigger] cur[k] != ' ' by {
            assert(cur[k] == w[st + k]);
        }
    }
}

proof fn lemma_last_space_props(s: Seq<char>)
    ensures
        -1 <= last_space(s) < s.len(),
        last_space(s) >= 0 ==> s[last_space(s)] == ' ',
        forall|j: int| last_space(s) < j < s.len() ==> #[trigger] s[j] != ' ',
    decreases s.len(),
{
    if s.len() > 0 && s.last() != ' ' {
        let t = s.drop_last();
        lemma_last_space_props(t);
        assert forall|j: int| last_space(s) < j < s.len() implies #[trigger] s[j] != ' ' by {
            if j < t.len() {
                assert(t[j] == s[j]);
            }
        }
        if last_space(t) >= 0 {
            assert(t[last_space(t)] == s[last_space(t)]);
        }
    }
}

} // verus!
