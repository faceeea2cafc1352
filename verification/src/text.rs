//! Character-level helpers shared by the parsers and the builtins:
//! string building, whitespace, decimal numbers, lines and joining.
use vstd::prelude::*;
use vstd::string::StringExecFns;

verus! {

broadcast use vstd::string::group_string_axioms;

// ---------------------------------------------------------------------------
// String building
// ---------------------------------------------------------------------------

/// Whether two string slices hold the same characters.
pub(crate) fn str_eq(a: &str, b: &str) -> (r: bool)
    ensures
        r == (a@ == b@),
{
    let ac = chars_of(a);
    let bc = chars_of(b);
    if ac.len() != bc.len() {
        return false;
    }
    let mut i: usize = 0;
    while i < ac.len()
        invariant
            i <= ac@.len() == bc@.len(),
            ac@ == a@,
            bc@ == b@,
            forall|k: int| 0 <= k < i ==> ac@[k] == bc@[k],
        decreases ac@.len() - i,
    {
        if ac[i] != bc[i] {
            return false;
        }
        i = i + 1;
    }
    assert(ac@ =~= bc@);
    true
}

/// `String::push`: appends one character at the end.
#[verifier::external_body]
pub(crate) fn string_push(s: &mut String, c: char)
    ensures
        final(s)@ == old(s)@.push(c),
{
    s.push(c);
}

/// An owned copy of `s`, holding the same characters.
pub(crate) fn owned(s: &str) -> (r: String)
    ensures
        r@ == s@,
{
    s.to_owned()
}

/// Appends the characters of `t` at the end of `s`.
pub(crate) fn string_append(s: &mut String, t: &str)
    ensures
        final(s)@ == old(s)@ + t@,
{
    s.append(t);
}

// ---------------------------------------------------------------------------
// Conversions between strings and characters
// ---------------------------------------------------------------------------

/// The characters of `s`, in order.
pub fn chars_of(s: &str) -> (v: Vec<char>)
    ensures
        v@ == s@,
{
    let mut v: Vec<char> = Vec::new();
    for c in it: s.chars()
        invariant
            v@ == it.seq().take(it.index() as int),
            it.seq() == s@,
    {
        v.push(c);
    }
    assert(v@ =~= s@);
    v
}

/// A string made of `cs[from..to]`.
pub fn string_of_range(cs: &Vec<char>, from: usize, to: usize) -> (s: String)
    requires
        from <= to <= cs@.len(),
    ensures
        s@ == cs@.subrange(from as int, to as int),
{
    let mut s = String::new();
    let mut i = from;
    while i < to
        invariant
            from <= i <= to <= cs@.len(),
            s@ == cs@.subrange(from as int, i as int),
        decreases to - i,
    {
        string_push(&mut s, cs[i]);
        i = i + 1;
        assert(s@ =~= cs@.subrange(from as int, i as int));
    }
    s
}

/// A string made of all of `cs`.
pub fn string_of(cs: &Vec<char>) -> (s: String)
    ensures
        s@ == cs@,
{
    let s = string_of_range(cs, 0, cs.len());
    assert(cs@.subrange(0, cs@.len() as int) =~= cs@);
    s
}

// ---------------------------------------------------------------------------
// Whitespace
// ---------------------------------------------------------------------------

/// The characters with the Unicode `White_Space` property, those for which
/// `char::is_whitespace` holds.
pub open spec fn is_white(c: char) -> bool {
    let u = c as u32;
    ||| 0x09 <= u <= 0x0D
    ||| u == 0x20
    ||| u == 0x85
    ||| u == 0xA0
    ||| u == 0x1680
    ||| 0x2000 <= u <= 0x200A
    ||| u == 0x2028
    ||| u == 0x2029
    ||| u == 0x202F
    ||| u == 0x205F
    ||| u == 0x3000
}

/// Whether `c` is white space in the sense of `char::is_whitespace`.
pub fn is_whitespace(c: char) -> (r: bool)
    ensures
        r == is_white(c),
{
    let u = c as u32;
    (0x09 <= u && u <= 0x0D) || u == 0x20 || u == 0x85 || u == 0xA0 || u == 0x1680
        || (0x2000 <= u && u <= 0x200A) || u == 0x2028 || u == 0x2029 || u == 0x202F
        || u == 0x205F || u == 0x3000
}

/// The number of white characters at the start of `s`.
pub open spec fn lead_white(s: Seq<char>) -> nat
    decreases s.len(),
{
    if s.len() > 0 && is_white(s[0]) {
        1 + lead_white(s.drop_first())
    } else {
        0
    }
}

/// The number of white characters at the end of `s`.
pub open spec fn trail_white(s: Seq<char>) -> nat
    decreases s.len(),
{
    if s.len() > 0 && is_white(s.last()) {
        1 + trail_white(s.drop_last())
    } else {
        0
    }
}

/// `s` without its leading and trailing white space, as `str::trim` gives it.
pub open spec fn trimmed(s: Seq<char>) -> Seq<char> {
    let a = lead_white(s);
    if a == s.len() {
        Seq::empty()
    } else {
        s.subrange(a as int, s.len() - trail_white(s))
    }
}

proof fn lemma_lead_white_bound(s: Seq<char>)
    ensures
        lead_white(s) <= s.len(),
        forall|k: int| 0 <= k < lead_white(s) ==> is_white(#[trigger] s[k]),
        lead_white(s) < s.len() ==> !is_white(s[lead_white(s) as int]),
    decreases s.len(),
{
    if s.len() > 0 && is_white(s[0]) {
        let t = s.drop_first();
        lemma_lead_white_bound(t);
        assert forall|k: int| 0 <= k < lead_white(s) implies is_white(#[trigger] s[k]) by {
            if k > 0 {
                assert(s[k] == t[k - 1]);
            }
        }
        if lead_white(s) < s.len() {
            assert(s[lead_white(s) as int] == t[lead_white(t) as int]);
        }
    }
}

proof fn lemma_trail_white_bound(s: Seq<char>)
    ensures
        trail_white(s) <= s.len(),
        forall|k: int| s.len() - trail_white(s) <= k < s.len() ==> is_white(#[trigger] s[k]),
        trail_white(s) < s.len() ==> !is_white(s[s.len() - trail_white(s) - 1]),
    decreases s.len(),
{
    if s.len() > 0 && is_white(s.last()) {
        let t = s.drop_last();
        lemma_trail_white_bound(t);
        assert forall|k: int| s.len() - trail_white(s) <= k < s.len() implies is_white(
            #[trigger] s[k],
        ) by {
            if k < s.len() - 1 {
                assert(s[k] == t[k]);
            }
        }
        if trail_white(s) < s.len() {
            assert(s[s.len() - trail_white(s) - 1] == t[t.len() - trail_white(t) - 1]);
        }
    }
}

/// The start and end (in characters) of `s` without its surrounding white space.
pub fn trim_bounds(cs: &Vec<char>) -> (r: (usize, usize))
    ensures
        r.0 <= r.1 <= cs@.len(),
        cs@.subrange(r.0 as int, r.1 as int) == trimmed(cs@),
{
    proof {
        lemma_lead_white_bound(cs@);
        lemma_trail_white_bound(cs@);
    }
    let n = cs.len();
    let mut a: usize = 0;
    while a < n && is_whitespace(cs[a])
        invariant
            a <= n == cs@.len(),
            forall|k: int| 0 <= k < a ==> is_white(#[trigger] cs@[k]),
        decreases n - a,
    {
        a = a + 1;
    }
    assert(a == lead_white(cs@)) by {
        let l = lead_white(cs@) as int;
        if l < a {
            assert(is_white(cs@[l]));
        }
        if l > a {
            assert(is_white(cs@[a as int]));
        }
    }
    if a == n {
        assert(cs@.subrange(n as int, n as int) =~= Seq::<char>::empty());
        return (n, n);
    }
    let mut b: usize = n;
    while b > a && is_whitespace(cs[b - 1])
        invariant
            a < n == cs@.len(),
            a <= b <= n,
            a == lead_white(cs@),
            forall|k: int| b <= k < n ==> is_white(#[trigger] cs@[k]),
        decreases b,
    {
        b = b - 1;
    }
    assert(!is_white(cs@[a as int]));
    assert(b == n - trail_white(cs@)) by {
        let t = n - trail_white(cs@);
        if t > b {
            assert(is_white(cs@[t - 1]));
        }
        if t < b {
            assert(is_white(cs@[b - 1]));
        }
    }
    (a, b)
}

/// `s` without leading and trailing white space (`str::trim`).
pub fn trim_chars(cs: &Vec<char>) -> (r: Vec<char>)
    ensures
        r@ == trimmed(cs@),
{
    let (a, b) = trim_bounds(cs);
    let mut r: Vec<char> = Vec::new();
    let mut i = a;
    while i < b
        invariant
            a <= i <= b <= cs@.len(),
            r@ == cs@.subrange(a as int, i as int),
        decreases b - i,
    {
        r.push(cs[i]);
        i = i + 1;
        assert(r@ =~= cs@.subrange(a as int, i as int));
    }
    r
}

// ---------------------------------------------------------------------------
// Decimal numbers
// ---------------------------------------------------------------------------

/// The decimal digit for `d < 10`.
pub open spec fn digit_char(d: nat) -> char {
    ((d + 48) as u32) as char
}

/// The decimal notation of `n`, without sign or leading zeros.
pub open spec fn decimal(n: nat) -> Seq<char>
    decreases n,
{
    if n < 10 {
        seq![digit_char(n)]
    } else {
        decimal(n / 10).push(digit_char(n % 10))
    }
}

fn digit(d: usize) -> (c: char)
    requires
        d < 10,
    ensures
        c == digit_char(d as nat),
{
    if d == 0 { '0' } else if d == 1 { '1' } else if d == 2 { '2' } else if d == 3 { '3' }
    else if d == 4 { '4' } else if d == 5 { '5' } else if d == 6 { '6' } else if d == 7 { '7' }
    else if d == 8 { '8' } else { '9' }
}

/// Appends the decimal notation of `n` to `s`.
pub fn push_decimal(s: &mut String, n: usize)
    ensures
        final(s)@ == old(s)@ + decimal(n as nat),
    decreases n,
{
    if n < 10 {
        string_push(s, digit(n));
        assert(final(s)@ =~= old(s)@ + decimal(n as nat));
    } else {
        push_decimal(s, n / 10);
        string_push(s, digit(n % 10));
        assert(final(s)@ =~= old(s)@ + decimal(n as nat));
    }
}

/// `count` spaces.
pub open spec fn spaces(count: nat) -> Seq<char> {
    Seq::new(count, |i: int| ' ')
}

/// `n` in decimal, right-aligned in a field of `width` characters
/// (what the format `{:width$}` writes for an integer).
pub open spec fn right_aligned(n: nat, width: nat) -> Seq<char> {
    let d = decimal(n);
    if d.len() >= width {
        d
    } else {
        spaces((width - d.len()) as nat) + d
    }
}

/// Appends `n` right-aligned in a field of `width` characters.
pub fn push_right_aligned(s: &mut String, n: usize, width: usize)
    ensures
        final(s)@ == old(s)@ + right_aligned(n as nat, width as nat),
{
    let d = to_decimal(n);
    let len = d.as_str().unicode_len();
    if len < width {
        let mut k: usize = 0;
        while k < width - len
            invariant
                len < width,
                k <= width - len,
                s@ == old(s)@ + spaces(k as nat),
            decreases width - len - k,
        {
            string_push(s, ' ');
            k = k + 1;
            assert(s@ =~= old(s)@ + spaces(k as nat));
        }
    }
    string_append(s, d.as_str());
    assert(final(s)@ =~= old(s)@ + right_aligned(n as nat, width as nat));
}

/// The decimal notation of `n` as a string.
pub fn to_decimal(n: usize) -> (s: String)
    ensures
        s@ == decimal(n as nat),
{
    let mut s = String::new();
    push_decimal(&mut s, n);
    assert(s@ =~= decimal(n as nat));
    s
}

/// Whether `c` is one of the ASCII digits `0` to `9`.
pub open spec fn is_digit(c: char) -> bool {
    '0' <= c && c <= '9'
}

/// The value of a string of ASCII digits, read in base ten.
pub open spec fn digits_value(ds: Seq<char>) -> nat
    decreases ds.len(),
{
    if ds.len() == 0 {
        0
    } else {
        digits_value(ds.drop_last()) * 10 + ((ds.last() as u32) - 48) as nat
    }
}

/// The part of `s` that holds the digits: all of it but a leading `+`.
pub open spec fn unsigned_digits(s: Seq<char>) -> Seq<char> {
    if s.len() > 0 && s[0] == '+' {
        s.drop_first()
    } else {
        s
    }
}

/// What `str::parse::<usize>` gives: an optional `+` followed by at least one
/// ASCII digit, whose value fits in a `usize`; `None` for anything else.
pub open spec fn parsed_usize(s: Seq<char>) -> Option<usize> {
    let ds = unsigned_digits(s);
    if ds.len() > 0 && (forall|i: int| 0 <= i < ds.len() ==> is_digit(#[trigger] ds[i]))
        && digits_value(ds) <= usize::MAX {
        Some(digits_value(ds) as usize)
    } else {
        None
    }
}

proof fn lemma_digits_value_prefix(ds: Seq<char>, i: int)
    requires
        0 <= i <= ds.len(),
        forall|k: int| 0 <= k < ds.len() ==> is_digit(#[trigger] ds[k]),
    ensures
        digits_value(ds.take(i)) <= digits_value(ds),
    decreases ds.len() - i,
{
    if i < ds.len() {
        lemma_digits_value_prefix(ds, i + 1);
        assert(ds.take(i + 1).drop_last() =~= ds.take(i));
        assert(digits_value(ds.take(i)) <= digits_value(ds.take(i + 1)));
    } else {
        assert(ds.take(i) =~= ds);
    }
}

proof fn lemma_parsed_none(s: Seq<char>, k: int)
    requires
        0 <= k < unsigned_digits(s).len(),
        !is_digit(unsigned_digits(s)[k]),
    ensures
        parsed_usize(s) == None::<usize>,
{
}

proof fn lemma_parsed_too_big(s: Seq<char>)
    requires
        digits_value(unsigned_digits(s)) > usize::MAX,
    ensures
        parsed_usize(s) == None::<usize>,
{
}

/// Reads a `usize` the way `str::parse::<usize>` does.
pub fn parse_usize(s: &str) -> (r: Option<usize>)
    ensures
        r == parsed_usize(s@),
{
    let cs = chars_of(s);
    let n = cs.len();
    let start: usize = if n > 0 && cs[0] == '+' { 1 } else { 0 };
    let ghost ds = unsigned_digits(s@);
    assert(ds =~= cs@.subrange(start as int, n as int));
    if start >= n {
        return None;
    }
    let mut value: usize = 0;
    let mut i = start;
    while i < n
        invariant
            start <= i <= n == cs@.len(),
            cs@ == s@,
            start < n,
            ds == cs@.subrange(start as int, n as int),
            ds == unsigned_digits(s@),
            forall|k: int| 0 <= k < i - start ==> is_digit(#[trigger] ds[k]),
            value == digits_value(ds.take(i - start)),
        decreases n - i,
    {
        let c = cs[i];
        if !('0' <= c && c <= '9') {
            assert(ds[i - start] == cs@[i as int]);
            assert(!is_digit(ds[i - start]));
            proof {
                lemma_parsed_none(s@, i - start);
            }
            return None;
        }
        let d = (c as u32 - 48) as usize;
        assert(ds.take(i + 1 - start).drop_last() =~= ds.take(i - start));
        if value > (usize::MAX - d) / 10 {
            proof {
                assert(digits_value(ds.take(i + 1 - start)) > usize::MAX) by (nonlinear_arith)
                    requires
                        value > (usize::MAX - d) / 10,
                        digits_value(ds.take(i + 1 - start)) == value * 10 + d,
                ;
                if forall|j: int| 0 <= j < ds.len() ==> is_digit(#[trigger] ds[j]) {
                    lemma_digits_value_prefix(ds, i + 1 - start);
                    lemma_parsed_too_big(s@);
                } else {
                    let k = choose|j: int| 0 <= j < ds.len() && !is_digit(#[trigger] ds[j]);
                    lemma_parsed_none(s@, k);
                }
            }
            return None;
        }
        value = value * 10 + d;
        i = i + 1;
    }
    assert(ds.take(n - start) =~= ds);
    Some(value)
}

// ---------------------------------------------------------------------------
// Lines and joining
// ---------------------------------------------------------------------------

/// `line` without one trailing carriage return.
pub open spec fn without_cr(line: Seq<char>) -> Seq<char> {
    if line.len() > 0 && line.last() == '\r' {
        line.drop_last()
    } else {
        line
    }
}

/// The lines of `s[start..]`, appended to `acc`, when the current line began at
/// `start` and the scan has reached `i`: a line ends at each `\n` (and then loses a
/// `\r` just before it), and text after the last `\n` is a last line when it is not
/// empty. This is the splitting of `str::lines`.
pub open spec fn lines_from(s: Seq<char>, i: int, start: int, acc: Seq<Seq<char>>) -> Seq<
    Seq<char>,
>
    decreases s.len() - i,
{
    if i >= s.len() {
        if start < s.len() {
            acc.push(s.subrange(start, s.len() as int))
        } else {
            acc
        }
    } else if s[i] == '\n' {
        lines_from(s, i + 1, i + 1, acc.push(without_cr(s.subrange(start, i))))
    } else {
        lines_from(s, i + 1, start, acc)
    }
}

/// The lines of `s`, as `str::lines` yields them.
pub open spec fn lines_of(s: Seq<char>) -> Seq<Seq<char>> {
    lines_from(s, 0, 0, Seq::empty())
}

/// The characters `cs[from..to]` without one trailing carriage return.
fn line_without_cr(cs: &Vec<char>, from: usize, to: usize) -> (r: String)
    requires
        from <= to <= cs@.len(),
    ensures
        r@ == without_cr(cs@.subrange(from as int, to as int)),
{
    if to > from && cs[to - 1] == '\r' {
        let r = string_of_range(cs, from, to - 1);
        assert(r@ =~= without_cr(cs@.subrange(from as int, to as int)));
        r
    } else {
        string_of_range(cs, from, to)
    }
}

/// The lines of `s`, split as `str::lines` splits them.
pub fn lines(s: &str) -> (r: Vec<String>)
    ensures
        strings_view(r@) == lines_of(s@),
{
    let cs = chars_of(s);
    let n = cs.len();
    let mut r: Vec<String> = Vec::new();
    let mut start: usize = 0;
    let mut i: usize = 0;
    assert(strings_view(r@) =~= Seq::<Seq<char>>::empty());
    while i < n
        invariant
            start <= i <= n == cs@.len(),
            cs@ == s@,
            lines_from(cs@, i as int, start as int, strings_view(r@)) == lines_of(s@),
        decreases n - i,
    {
        if cs[i] == '\n' {
            let line = line_without_cr(&cs, start, i);
            let ghost before = strings_view(r@);
            r.push(line);
            assert(strings_view(r@) =~= before.push(line@));
            start = i + 1;
        }
        i = i + 1;
    }
    if start < n {
        let line = string_of_range(&cs, start, n);
        let ghost before = strings_view(r@);
        r.push(line);
        assert(strings_view(r@) =~= before.push(line@));
    }
    r
}

/// The characters of each string of `v`.
pub open spec fn strings_view(v: Seq<String>) -> Seq<Seq<char>> {
    v.map_values(|s: String| s@)
}

/// The characters of an optional string.
pub open spec fn opt_view(o: Option<String>) -> Option<Seq<char>> {
    match o {
        Some(s) => Some(s@),
        None => None,
    }
}

/// The words of `ws` written one after the other with `sep` between each two.
pub open spec fn joined(ws: Seq<Seq<char>>, sep: Seq<char>) -> Seq<char>
    decreases ws.len(),
{
    if ws.len() == 0 {
        Seq::empty()
    } else if ws.len() == 1 {
        ws[0]
    } else {
        joined(ws.drop_last(), sep) + sep + ws.last()
    }
}

/// The strings of `ws` joined with `sep` between each two (`[String]::join`).
pub fn join(ws: &Vec<String>, sep: &str) -> (r: String)
    ensures
        r@ == joined(strings_view(ws@), sep@),
{
    let ghost vs = strings_view(ws@);
    let mut r = String::new();
    let mut i: usize = 0;
    while i < ws.len()
        invariant
            i <= ws@.len(),
            vs == strings_view(ws@),
            r@ == joined(vs.take(i as int), sep@),
        decreases ws@.len() - i,
    {
        assert(vs.take(i + 1).drop_last() =~= vs.take(i as int));
        if i > 0 {
            string_append(&mut r, sep);
        }
        string_append(&mut r, ws[i].as_str());
        i = i + 1;
        assert(r@ =~= joined(vs.take(i as int), sep@)) by {
            if i == 1 {
                assert(vs.take(0) =~= Seq::<Seq<char>>::empty());
            }
        }
    }
    assert(vs.take(ws@.len() as int) =~= vs);
    r
}

} // verus!

verus! {

pub proof fn lemma_lines_shift(p: Seq<char>, q: Seq<char>, j: int, st: int, acc: Seq<Seq<char>>)
    requires
        0 <= st <= j <= q.len(),
    ensures
        lines_from(p + q, p.len() + j, p.len() + st, acc) == lines_from(q, j, st, acc),
    decreases q.len() - j,
{
    let s = p + q;
    if j >= q.len() {
        assert(s.subrange(p.len() + st, s.len() as int) =~= q.subrange(st, q.len() as int));
    } else {
        assert(s[p.len() + j] == q[j]);
        if q[j] == '\n' {
            assert(s.subrange(p.len() + st, p.len() + j) =~= q.subrange(st, j));
            lemma_lines_shift(p, q, j + 1, j + 1, acc.push(without_cr(q.subrange(st, j))));
        } else {
            lemma_lines_shift(p, q, j + 1, st, acc);
        }
    }
}

/// Splitting lines of `p + q`, where `p` is empty or ends with a newline,
/// continues on `q` from the lines of `p`.
pub proof fn lemma_lines_split(p: Seq<char>, q: Seq<char>, i: int, start: int, acc: Seq<Seq<char>>)
    requires
        0 <= start <= i <= p.len(),
        i == p.len() ==> start == p.len(),
        p.len() > 0 ==> p.last() == '\n',
    ensures
        lines_from(p + q, i, start, acc) == lines_from(q, 0, 0, lines_from(p, i, start, acc)),
    decreases p.len() - i,
{
    let s = p + q;
    if i == p.len() {
        lemma_lines_shift(p, q, 0, 0, acc);
    } else {
        assert(s[i] == p[i]);
        if p[i] == '\n' {
            assert(s.subrange(start, i) =~= p.subrange(start, i));
            lemma_lines_split(p, q, i + 1, i + 1, acc.push(without_cr(p.subrange(start, i))));
        } else {
            lemma_lines_split(p, q, i + 1, start, acc);
        }
    }
}

/// A line without newline, followed by a newline, is read as that line
/// (without a carriage return at its end).
pub proof fn lemma_one_line(e: Seq<char>, i: int, acc: Seq<Seq<char>>)
    requires
        0 <= i <= e.len(),
        forall|k: int| 0 <= k < e.len() ==> #[trigger] e[k] != '\n',
    ensures
        lines_from(e.push('\n'), i, 0, acc) == acc.push(without_cr(e)),
    decreases e.len() - i,
{
    let s = e.push('\n');
    if i < e.len() {
        assert(s[i] == e[i]);
        lemma_one_line(e, i + 1, acc);
    } else {
        assert(s[i] == '\n');
        assert(s.subrange(0, i) =~= e);
        let acc2 = acc.push(without_cr(e));
        assert(lines_from(s, i + 1, i + 1, acc2) == acc2);
        assert(lines_from(s, i, 0, acc) == lines_from(s, i + 1, i + 1, acc2));
    }
}

} // verus!

verus! {

proof fn lemma_decimal_digits(n: nat)
    ensures
        decimal(n).len() > 0,
        forall|i: int| 0 <= i < decimal(n).len() ==> is_digit(#[trigger] decimal(n)[i]),
        digits_value(decimal(n)) == n,
    decreases n,
{
    if n < 10 {
        assert(digit_char(n) as u32 == n + 48);
        assert(decimal(n).drop_last() =~= Seq::<char>::empty());
        assert(decimal(n).last() == digit_char(n));
        assert(digits_value(decimal(n)) == digits_value(decimal(n).drop_last()) * 10 + ((decimal(n).last() as u32) - 48) as nat);
    } else {
        lemma_decimal_digits(n / 10);
        let d = decimal(n);
        assert(d.drop_last() =~= decimal(n / 10));
        assert(digit_char(n % 10) as u32 == n % 10 + 48);
        assert(d.last() == digit_char(n % 10));
        assert(digits_value(d) == digits_value(d.drop_last()) * 10 + ((d.last() as u32) - 48) as nat);
        assert((n / 10) * 10 + n % 10 == n);
        assert forall|i: int| 0 <= i < d.len() implies is_digit(#[trigger] d[i]) by {
            if i < d.len() - 1 {
                assert(d[i] == decimal(n / 10)[i]);
            }
        }
    }
}

/// A number written in decimal reads back as the same number.
pub proof fn law_decimal_reads_back(n: usize)
    ensures
        parsed_usize(decimal(n as nat)) == Some(n),
{
    lemma_decimal_digits(n as nat);
    let d = decimal(n as nat);
    assert(is_digit(d[0]));
    assert(unsigned_digits(d) == d);
}

} // verus!
