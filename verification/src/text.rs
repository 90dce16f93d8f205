//! Character-level text handling: the model of the string operations that the
//! parsers and formatters of this crate are built from, and their verified
//! implementations over `Vec<char>`.
use vstd::prelude::*;

verus! {

// ── Model ────────────────────────────────────────────────────────────────────

/// Unicode `White_Space`, the set that `char::is_whitespace` tests.
pub open spec fn is_ws(c: char) -> bool {
    let u = c as u32;
    ||| u == 0x20 || (0x09 <= u && u <= 0x0D)
    ||| u == 0x85 || u == 0xA0 || u == 0x1680
    ||| (0x2000 <= u && u <= 0x200A)
    ||| u == 0x2028 || u == 0x2029 || u == 0x202F || u == 0x205F || u == 0x3000
}

/// `s` with its leading whitespace removed.
pub open spec fn trim_start(s: Seq<char>) -> Seq<char>
    decreases s.len(),
{
    if s.len() > 0 && is_ws(s[0]) {
        trim_start(s.drop_first())
    } else {
        s
    }
}

/// `s` with its trailing whitespace removed.
pub open spec fn trim_end(s: Seq<char>) -> Seq<char>
    decreases s.len(),
{
    if s.len() > 0 && is_ws(s.last()) {
        trim_end(s.drop_last())
    } else {
        s
    }
}

/// `s` with leading and trailing whitespace removed (`str::trim`).
pub open spec fn trim(s: Seq<char>) -> Seq<char> {
    trim_end(trim_start(s))
}

/// `s` begins with `p`.
pub open spec fn starts_with(s: Seq<char>, p: Seq<char>) -> bool {
    p.len() <= s.len() && s.take(p.len() as int) == p
}

/// `s` ends with `p`.
pub open spec fn ends_with(s: Seq<char>, p: Seq<char>) -> bool {
    p.len() <= s.len() && s.skip(s.len() - p.len()) == p
}

/// `p` occurs in `s` starting at index `i`.
pub open spec fn matches_at(s: Seq<char>, p: Seq<char>, i: int) -> bool {
    0 <= i && i + p.len() <= s.len() && s.subrange(i, i + p.len()) == p
}

/// The first index at or after `i` where `p` occurs in `s`.
pub open spec fn find_from(s: Seq<char>, p: Seq<char>, i: int) -> Option<int>
    decreases s.len() + 1 - i,
{
    if i < 0 || i + p.len() > s.len() {
        None
    } else if matches_at(s, p, i) {
        Some(i)
    } else {
        find_from(s, p, i + 1)
    }
}

/// The index of the first occurrence of `p` in `s` (`str::find`).
pub open spec fn find(s: Seq<char>, p: Seq<char>) -> Option<int> {
    find_from(s, p, 0)
}

/// `p` occurs in `s` (`str::contains`).
pub open spec fn contains(s: Seq<char>, p: Seq<char>) -> bool {
    find(s, p) is Some
}

/// What follows the first occurrence of `p` in `s`: `s.splitn(2, p).nth(1)`.
pub open spec fn after_first(s: Seq<char>, p: Seq<char>) -> Option<Seq<char>> {
    match find(s, p) {
        Some(i) => Some(s.skip(i + p.len())),
        None => None,
    }
}

/// The index of the first `c` in `s`.
pub open spec fn index_of(s: Seq<char>, c: char) -> Option<int>
    decreases s.len(),
{
    if s.len() == 0 {
        None
    } else if s[0] == c {
        Some(0)
    } else {
        match index_of(s.drop_first(), c) {
            Some(i) => Some(i + 1),
            None => None,
        }
    }
}

/// The index of the last `c` in `s` (`str::rfind` with a char).
pub open spec fn last_index_of(s: Seq<char>, c: char) -> Option<int>
    decreases s.len(),
{
    if s.len() == 0 {
        None
    } else if s.last() == c {
        Some(s.len() - 1)
    } else {
        last_index_of(s.drop_last(), c)
    }
}

/// The part of `s` before its first `c`, or all of `s`: `s.split(c).next()`.
pub open spec fn before_char(s: Seq<char>, c: char) -> Seq<char> {
    match index_of(s, c) {
        Some(i) => s.take(i),
        None => s,
    }
}

/// The part of `s` after its last `c`, or all of `s`: `s.split(c).last()`.
pub open spec fn after_last_char(s: Seq<char>, c: char) -> Seq<char> {
    match last_index_of(s, c) {
        Some(i) => s.skip(i + 1),
        None => s,
    }
}

/// The pieces of `s` between occurrences of `c` (`str::split` with a char).
pub open spec fn split_char(s: Seq<char>, c: char) -> Seq<Seq<char>>
    decreases s.len(),
{
    if s.len() == 0 {
        seq![Seq::<char>::empty()]
    } else {
        let init = split_char(s.drop_last(), c);
        if s.last() == c {
            init.push(Seq::<char>::empty())
        } else {
            init.update(init.len() - 1, init.last().push(s.last()))
        }
    }
}

/// `l` without one trailing carriage return.
pub open spec fn strip_cr(l: Seq<char>) -> Seq<char> {
    if l.len() > 0 && l.last() == '\r' {
        l.drop_last()
    } else {
        l
    }
}

/// The lines of `s` (`str::lines`): split at `\n`, a `\r` just before a `\n`
/// belongs to the line ending, and a final line ending adds no empty line.
pub open spec fn lines(s: Seq<char>) -> Seq<Seq<char>> {
    let parts = split_char(s, '\n');
    let closed = parts.drop_last().map_values(|l: Seq<char>| strip_cr(l));
    if s.len() == 0 {
        Seq::empty()
    } else if s.last() == '\n' {
        closed
    } else {
        closed.push(parts.last())
    }
}

/// Tokens split off so far and the token being read, for `ws_tokens`.
pub open spec fn ws_state(s: Seq<char>) -> (Seq<Seq<char>>, Seq<char>)
    decreases s.len(),
{
    if s.len() == 0 {
        (Seq::empty(), Seq::empty())
    } else {
        let (toks, cur) = ws_state(s.drop_last());
        if is_ws(s.last()) {
            if cur.len() > 0 {
                (toks.push(cur), Seq::empty())
            } else {
                (toks, cur)
            }
        } else {
            (toks, cur.push(s.last()))
        }
    }
}

/// The non-empty runs of non-whitespace in `s` (`str::split_whitespace`).
pub open spec fn ws_tokens(s: Seq<char>) -> Seq<Seq<char>> {
    let (toks, cur) = ws_state(s);
    if cur.len() > 0 {
        toks.push(cur)
    } else {
        toks
    }
}

/// Every occurrence of `p` in `s`, scanning left to right without overlap,
/// replaced by `r` (`str::replace`).
pub open spec fn replace_all(s: Seq<char>, p: Seq<char>, r: Seq<char>) -> Seq<char>
    decreases s.len(),
{
    if s.len() == 0 || p.len() == 0 {
        s
    } else if starts_with(s, p) {
        r + replace_all(s.skip(p.len() as int), p, r)
    } else {
        seq![s[0]] + replace_all(s.drop_first(), p, r)
    }
}

/// `s` with every leading copy of `p` removed (`str::trim_start_matches`).
pub open spec fn strip_prefixes(s: Seq<char>, p: Seq<char>) -> Seq<char>
    decreases s.len(),
{
    if p.len() > 0 && starts_with(s, p) {
        strip_prefixes(s.skip(p.len() as int), p)
    } else {
        s
    }
}

/// `s` with every trailing copy of `p` removed (`str::trim_end_matches`).
pub open spec fn strip_suffixes(s: Seq<char>, p: Seq<char>) -> Seq<char>
    decreases s.len(),
{
    if p.len() > 0 && ends_with(s, p) {
        strip_suffixes(s.take(s.len() - p.len()), p)
    } else {
        s
    }
}

/// An ASCII decimal digit.
pub open spec fn is_digit(c: char) -> bool {
    '0' <= c && c <= '9'
}

/// The value of an ASCII decimal digit.
pub open spec fn digit_value(c: char) -> nat {
    (c as u32 - '0' as u32) as nat
}

/// The number that a string of decimal digits denotes.
pub open spec fn digits_value(s: Seq<char>) -> nat
    decreases s.len(),
{
    if s.len() == 0 {
        0
    } else {
        digits_value(s.drop_last()) * 10 + digit_value(s.last())
    }
}

/// Every character is an ASCII decimal digit.
pub open spec fn all_digits(s: Seq<char>) -> bool {
    forall|i: int| 0 <= i < s.len() ==> is_digit(#[trigger] s[i])
}

/// `s.parse::<u32>()`: an optional `+`, then one or more decimal digits whose
/// value fits in a `u32`.
pub open spec fn parse_u32(s: Seq<char>) -> Option<u32> {
    let d = if s.len() > 0 && s[0] == '+' {
        s.drop_first()
    } else {
        s
    };
    if d.len() > 0 && all_digits(d) && digits_value(d) <= u32::MAX {
        Some(digits_value(d) as u32)
    } else {
        None
    }
}

/// The ASCII digit for a value below ten.
pub open spec fn digit_char(d: nat) -> char {
    ((d + 48) as u32) as char
}

/// The decimal digits of `n`, without leading zeros (`u32::to_string`).
pub open spec fn decimal(n: nat) -> Seq<char>
    decreases n,
{
    if n < 10 {
        seq![digit_char(n)]
    } else {
        decimal(n / 10).push(digit_char(n % 10))
    }
}

/// `n` in decimal, zero-padded to at least two digits (`format!("{:02}")`).
pub open spec fn decimal_pad2(n: nat) -> Seq<char> {
    if n < 10 {
        seq!['0'] + decimal(n)
    } else {
        decimal(n)
    }
}

/// The pieces joined with `sep` between neighbours (`slice::join`).
pub open spec fn join(parts: Seq<Seq<char>>, sep: Seq<char>) -> Seq<char>
    decreases parts.len(),
{
    if parts.len() == 0 {
        Seq::empty()
    } else if parts.len() == 1 {
        parts[0]
    } else {
        join(parts.drop_last(), sep) + sep + parts.last()
    }
}

/// The first `Some` that `f` gives over `s`, in order.
pub open spec fn first_some<A, B>(s: Seq<A>, f: spec_fn(A) -> Option<B>) -> Option<B>
    decreases s.len(),
{
    if s.len() == 0 {
        None
    } else {
        match f(s[0]) {
            Some(b) => Some(b),
            None => first_some(s.drop_first(), f),
        }
    }
}

/// The concatenation of `f` over `s`, in order.
pub open spec fn flat_map<A, B>(s: Seq<A>, f: spec_fn(A) -> Seq<B>) -> Seq<B>
    decreases s.len(),
{
    if s.len() == 0 {
        Seq::empty()
    } else {
        flat_map(s.drop_last(), f) + f(s.last())
    }
}

/// The character sequences held by a vector of character vectors.
pub open spec fn views(v: Seq<Vec<char>>) -> Seq<Seq<char>> {
    v.map_values(|x: Vec<char>| x@)
}

/// The texts of a sequence of strings.
pub open spec fn string_views(v: Seq<String>) -> Seq<Seq<char>> {
    v.map_values(|s: String| s@)
}

/// An optional string as optional text.
pub open spec fn opt_view(o: Option<String>) -> Option<Seq<char>> {
    match o {
        Some(s) => Some(s@),
        None => None,
    }
}

// ── Lemmas ───────────────────────────────────────────────────────────────────

/// Trimming skips the leading whitespace before position `i`.
pub proof fn lemma_trim_start(s: Seq<char>, i: int)
    requires
        0 <= i <= s.len(),
        forall|k: int| 0 <= k < i ==> is_ws(#[trigger] s[k]),
        i == s.len() || !is_ws(s[i]),
    ensures
        trim_start(s) == s.skip(i),
    decreases i,
{
    if i > 0 {
        assert(is_ws(s[0]));
        let t = s.drop_first();
        assert forall|k: int| 0 <= k < i - 1 implies is_ws(#[trigger] t[k]) by {
            assert(t[k] == s[k + 1]);
        }
        if i - 1 < t.len() {
            assert(t[i - 1] == s[i]);
        }
        lemma_trim_start(t, i - 1);
        assert(t.skip(i - 1) =~= s.skip(i));
    } else {
        assert(s.skip(0) =~= s);
    }
}

/// Trimming drops the trailing whitespace from position `j` on.
pub proof fn lemma_trim_end(s: Seq<char>, j: int)
    requires
        0 <= j <= s.len(),
        forall|k: int| j <= k < s.len() ==> is_ws(#[trigger] s[k]),
        j == 0 || !is_ws(s[j - 1]),
    ensures
        trim_end(s) == s.take(j),
    decreases s.len() - j,
{
    if j < s.len() {
        assert(is_ws(s.last()));
        let t = s.drop_last();
        assert forall|k: int| j <= k < t.len() implies is_ws(#[trigger] t[k]) by {
            assert(t[k] == s[k]);
        }
        if j > 0 {
            assert(t[j - 1] == s[j - 1]);
        }
        lemma_trim_end(t, j);
        assert(t.take(j) =~= s.take(j));
    } else {
        assert(s.take(j) =~= s);
    }
}

/// Where `c` first occurs when no earlier position holds it.
pub proof fn lemma_index_of(s: Seq<char>, c: char, i: int)
    requires
        0 <= i <= s.len(),
        forall|k: int| 0 <= k < i ==> #[trigger] s[k] != c,
    ensures
        i < s.len() && s[i] == c ==> index_of(s, c) == Some(i),
        i == s.len() ==> index_of(s, c) is None,
    decreases i,
{
    if i > 0 {
        let t = s.drop_first();
        assert(s[0] != c);
        assert forall|k: int| 0 <= k < i - 1 implies #[trigger] t[k] != c by {
            assert(t[k] == s[k + 1]);
        }
        if i < s.len() {
            assert(t[i - 1] == s[i]);
        }
        lemma_index_of(t, c, i - 1);
    }
}

/// Where `c` last occurs when no later position holds it.
pub proof fn lemma_last_index_of(s: Seq<char>, c: char, j: int)
    requires
        0 <= j <= s.len(),
        forall|k: int| j <= k < s.len() ==> #[trigger] s[k] != c,
    ensures
        j > 0 && s[j - 1] == c ==> last_index_of(s, c) == Some(j - 1),
        j == 0 ==> last_index_of(s, c) is None,
    decreases s.len() - j,
{
    if j < s.len() {
        let t = s.drop_last();
        assert(s.last() != c);
        assert forall|k: int| j <= k < t.len() implies #[trigger] t[k] != c by {
            assert(t[k] == s[k]);
        }
        if j > 0 {
            assert(t[j - 1] == s[j - 1]);
        }
        lemma_last_index_of(t, c, j);
    }
}

/// Items that give nothing do not change the first result.
pub proof fn lemma_first_some_skip<A, B>(s: Seq<A>, f: spec_fn(A) -> Option<B>, i: int)
    requires
        0 <= i <= s.len(),
        forall|k: int| 0 <= k < i ==> (#[trigger] f(s[k])) is None,
    ensures
        first_some(s, f) == first_some(s.skip(i), f),
    decreases i,
{
    if i > 0 {
        let t = s.drop_first();
        assert(f(s[0]) is None);
        assert forall|k: int| 0 <= k < i - 1 implies (#[trigger] f(t[k])) is None by {
            assert(t[k] == s[k + 1]);
        }
        lemma_first_some_skip(t, f, i - 1);
        assert(t.skip(i - 1) =~= s.skip(i));
    } else {
        assert(s.skip(0) =~= s);
    }
}

/// The first result comes from the first item that gives one.
pub proof fn lemma_first_some_at<A, B>(s: Seq<A>, f: spec_fn(A) -> Option<B>, i: int)
    requires
        0 <= i < s.len(),
        forall|k: int| 0 <= k < i ==> (#[trigger] f(s[k])) is None,
        f(s[i]) is Some,
    ensures
        first_some(s, f) == f(s[i]),
{
    lemma_first_some_skip(s, f, i);
    assert(s.skip(i)[0] == s[i]);
}

/// No item gives a result, so there is none.
pub proof fn lemma_first_some_none<A, B>(s: Seq<A>, f: spec_fn(A) -> Option<B>)
    requires
        forall|k: int| 0 <= k < s.len() ==> (#[trigger] f(s[k])) is None,
    ensures
        first_some(s, f) is None,
{
    lemma_first_some_skip(s, f, s.len() as int);
    assert(s.skip(s.len() as int).len() == 0);
}


// ── Ordering of strings ──────────────────────────────────────────────────────

/// `a` sorts before `b`: the order of `str`, character by character (which
/// is the byte order of their UTF-8 encodings).
pub open spec fn lex_less(a: Seq<char>, b: Seq<char>) -> bool
    decreases a.len(),
{
    if a.len() == 0 {
        b.len() > 0
    } else if b.len() == 0 {
        false
    } else if a[0] != b[0] {
        a[0] < b[0]
    } else {
        lex_less(a.drop_first(), b.drop_first())
    }
}

/// No text comes before itself.
pub proof fn lemma_lex_irreflexive(a: Seq<char>)
    ensures
        !lex_less(a, a),
    decreases a.len(),
{
    if a.len() > 0 {
        lemma_lex_irreflexive(a.drop_first());
    }
}

/// Of two different texts one comes before the other.
pub proof fn lemma_lex_total(a: Seq<char>, b: Seq<char>)
    ensures
        a == b || lex_less(a, b) || lex_less(b, a),
    decreases a.len(),
{
    if a.len() > 0 && b.len() > 0 && a[0] == b[0] {
        lemma_lex_total(a.drop_first(), b.drop_first());
        if a.drop_first() == b.drop_first() {
            assert(a =~= seq![a[0]] + a.drop_first());
            assert(b =~= seq![b[0]] + b.drop_first());
        }
    } else if a.len() == 0 && b.len() == 0 {
        assert(a =~= b);
    }
}

/// Lexicographic order is transitive.
pub proof fn lemma_lex_transitive(a: Seq<char>, b: Seq<char>, c: Seq<char>)
    requires
        lex_less(a, b),
        lex_less(b, c),
    ensures
        lex_less(a, c),
    decreases a.len(),
{
    if a.len() > 0 && b.len() > 0 && c.len() > 0 && a[0] == b[0] && b[0] == c[0] {
        lemma_lex_transitive(a.drop_first(), b.drop_first(), c.drop_first());
    }
}

/// Whether `a` sorts before `b`.
pub fn lex_less_than(a: &Vec<char>, b: &Vec<char>) -> (r: bool)
    ensures
        r == lex_less(a@, b@),
{
    let mut i: usize = 0;
    assert(a@.skip(0) =~= a@ && b@.skip(0) =~= b@);
    while i < a.len() && i < b.len() && a[i] == b[i]
        invariant
            0 <= i <= a.len(),
            i <= b.len(),
            forall|k: int| 0 <= k < i ==> a@[k] == b@[k],
            lex_less(a@, b@) == lex_less(a@.skip(i as int), b@.skip(i as int)),
        decreases a.len() - i,
    {
        let ghost sa = a@.skip(i as int);
        let ghost sb = b@.skip(i as int);
        assert(sa.drop_first() =~= a@.skip(i + 1));
        assert(sb.drop_first() =~= b@.skip(i + 1));
        i = i + 1;
    }
    if i == a.len() {
        i < b.len()
    } else if i == b.len() {
        false
    } else {
        a[i] < b[i]
    }
}

// ── Character sequences ──────────────────────────────────────────────────────

/// The characters of a string slice, in order.
pub fn chars_of(s: &str) -> (v: Vec<char>)
    ensures
        v@ == s@,
{
    let mut v: Vec<char> = Vec::new();
    for c in it: s.chars()
        invariant
            v@ == it.seq().take(it.index() as int),
            it.seq() == s@,
    {
        v.push(c);
    }
    v
}

/// std's `String::push`: the contract claims that the string's characters
/// are then those it had, followed by `c`.
#[verifier::external_body]
pub(crate) fn push_char(s: &mut String, c: char)
    ensures
        final(s)@ == old(s)@.push(c),
{
    s.push(c);
}

/// The string made of the given characters.
pub fn string_of(v: &Vec<char>) -> (s: String)
    ensures
        s@ == v@,
{
    let mut s: String = String::new();
    for i in 0..v.len()
        invariant
            s@ == v@.take(i as int),
    {
        push_char(&mut s, v[i]);
        assert(v@.take(i + 1) == v@.take(i as int).push(v@[i as int]));
    }
    assert(v@.take(v.len() as int) == v@);
    s
}

/// `a` followed by `b`.
pub fn concat(a: &Vec<char>, b: &Vec<char>) -> (r: Vec<char>)
    ensures
        r@ == a@ + b@,
{
    let mut r: Vec<char> = a.clone();
    for i in 0..b.len()
        invariant
            r@ == a@ + b@.take(i as int),
    {
        r.push(b[i]);
        assert(b@.take(i + 1) == b@.take(i as int).push(b@[i as int]));
    }
    assert(b@.take(b.len() as int) == b@);
    r
}

/// Appends the characters of `b` to `a`.
pub fn extend(a: &mut Vec<char>, b: &Vec<char>)
    ensures
        final(a)@ == old(a)@ + b@,
{
    let ghost a0 = a@;
    for i in 0..b.len()
        invariant
            a@ == a0 + b@.take(i as int),
    {
        a.push(b[i]);
        assert(b@.take(i + 1) == b@.take(i as int).push(b@[i as int]));
    }
    assert(b@.take(b.len() as int) == b@);
}

/// The characters of `s` in `[from, to)`.
pub fn slice(s: &Vec<char>, from: usize, to: usize) -> (r: Vec<char>)
    requires
        from <= to <= s.len(),
    ensures
        r@ == s@.subrange(from as int, to as int),
{
    let mut r: Vec<char> = Vec::new();
    let mut i: usize = from;
    while i < to
        invariant
            from <= i <= to <= s.len(),
            r@ == s@.subrange(from as int, i as int),
        decreases to - i,
    {
        r.push(s[i]);
        assert(s@.subrange(from as int, i + 1) == s@.subrange(from as int, i as int).push(
            s@[i as int],
        ));
        i = i + 1;
    }
    r
}

/// Whether two character sequences are equal.
pub fn same(a: &Vec<char>, b: &Vec<char>) -> (r: bool)
    ensures
        r == (a@ == b@),
{
    if a.len() != b.len() {
        return false;
    }
    for i in 0..a.len()
        invariant
            a.len() == b.len(),
            forall|k: int| 0 <= k < i ==> a@[k] == b@[k],
    {
        if a[i] != b[i] {
            return false;
        }
    }
    assert(a@ =~= b@);
    true
}

/// Whether `c` is whitespace as `is_ws` defines it.
pub fn is_whitespace(c: char) -> (r: bool)
    ensures
        r == is_ws(c),
{
    let u: u32 = c as u32;
    (u == 0x20 || (0x09 <= u && u <= 0x0D)) || (u == 0x85 || u == 0xA0 || u == 0x1680) || (0x2000
        <= u && u <= 0x200A) || (u == 0x2028 || u == 0x2029 || u == 0x202F || u == 0x205F || u
        == 0x3000)
}

/// `str::trim`.
pub fn trimmed(s: &Vec<char>) -> (r: Vec<char>)
    ensures
        r@ == trim(s@),
{
    let mut i: usize = 0;
    while i < s.len() && is_whitespace(s[i])
        invariant
            0 <= i <= s.len(),
            forall|k: int| 0 <= k < i ==> is_ws(#[trigger] s@[k]),
        decreases s.len() - i,
    {
        i = i + 1;
    }
    proof {
        lemma_trim_start(s@, i as int);
    }
    let ghost t = s@.skip(i as int);
    let mut j: usize = s.len();
    while j > i && is_whitespace(s[j - 1])
        invariant
            i <= j <= s.len(),
            forall|k: int| j <= k < s.len() ==> is_ws(#[trigger] s@[k]),
        decreases j,
    {
        j = j - 1;
    }
    proof {
        assert forall|k: int| j - i <= k < t.len() implies is_ws(#[trigger] t[k]) by {
            assert(t[k] == s@[k + i]);
        }
        if j > i {
            assert(t[j - i - 1] == s@[j - 1]);
        }
        lemma_trim_end(t, j - i);
        assert(t.take(j - i) =~= s@.subrange(i as int, j as int));
    }
    slice(s, i, j)
}

/// Whether `p` occurs in `s` at `i`.
pub fn matches_here(s: &Vec<char>, p: &Vec<char>, i: usize) -> (r: bool)
    ensures
        r == matches_at(s@, p@, i as int),
{
    if i > s.len() || p.len() > s.len() - i {
        return false;
    }
    for k in 0..p.len()
        invariant
            i + p.len() <= s.len(),
            forall|m: int| 0 <= m < k ==> s@[i + m] == p@[m],
    {
        if s[i + k] != p[k] {
            assert(s@.subrange(i as int, i + p.len())[k as int] == s@[i + k]);
            return false;
        }
    }
    assert(s@.subrange(i as int, i + p.len()) =~= p@);
    true
}

/// `str::find`: the first index where `p` occurs in `s`.
pub fn find_at(s: &Vec<char>, p: &Vec<char>) -> (r: Option<usize>)
    ensures
        match r {
            Some(i) => find(s@, p@) == Some(i as int),
            None => find(s@, p@) is None,
        },
{
    if p.len() > s.len() {
        return None;
    }
    if p.len() == 0 {
        assert(s@.subrange(0, 0) =~= p@);
        return Some(0);
    }
    let mut i: usize = 0;
    while i <= s.len() - p.len()
        invariant
            0 < p.len() <= s.len(),
            i <= s.len() - p.len() + 1,
            find(s@, p@) == find_from(s@, p@, i as int),
        decreases s.len() + 1 - i,
    {
        if matches_here(s, p, i) {
            return Some(i);
        }
        i = i + 1;
    }
    None
}

/// `str::contains`.
pub fn includes(s: &Vec<char>, p: &Vec<char>) -> (r: bool)
    ensures
        r == contains(s@, p@),
{
    find_at(s, p).is_some()
}

/// `str::starts_with`.
pub fn begins_with(s: &Vec<char>, p: &Vec<char>) -> (r: bool)
    ensures
        r == starts_with(s@, p@),
{
    let r = matches_here(s, p, 0);
    proof {
        if p.len() <= s.len() {
            assert(s@.subrange(0, p.len() as int) == s@.take(p.len() as int));
        }
    }
    r
}

/// `str::ends_with`.
pub fn finishes_with(s: &Vec<char>, p: &Vec<char>) -> (r: bool)
    ensures
        r == ends_with(s@, p@),
{
    if p.len() > s.len() {
        return false;
    }
    let r = matches_here(s, p, s.len() - p.len());
    proof {
        assert(s@.subrange(s.len() - p.len(), s.len() as int) == s@.skip(s.len() - p.len()));
    }
    r
}

/// The index of the first `c` in `s`.
pub fn index_of_char(s: &Vec<char>, c: char) -> (r: Option<usize>)
    ensures
        match r {
            Some(i) => index_of(s@, c) == Some(i as int),
            None => index_of(s@, c) is None,
        },
{
    for i in 0..s.len()
        invariant
            forall|k: int| 0 <= k < i ==> #[trigger] s@[k] != c,
    {
        if s[i] == c {
            proof {
                lemma_index_of(s@, c, i as int);
            }
            return Some(i);
        }
    }
    proof {
        lemma_index_of(s@, c, s.len() as int);
    }
    None
}

/// `str::rfind` with a char: the index of the last `c` in `s`.
pub fn last_index_of_char(s: &Vec<char>, c: char) -> (r: Option<usize>)
    ensures
        match r {
            Some(i) => last_index_of(s@, c) == Some(i as int),
            None => last_index_of(s@, c) is None,
        },
{
    let mut j: usize = s.len();
    while j > 0
        invariant
            0 <= j <= s.len(),
            forall|k: int| j <= k < s.len() ==> #[trigger] s@[k] != c,
        decreases j,
    {
        if s[j - 1] == c {
            proof {
                lemma_last_index_of(s@, c, j as int);
            }
            return Some(j - 1);
        }
        j = j - 1;
    }
    proof {
        lemma_last_index_of(s@, c, 0);
    }
    None
}

/// What follows the first occurrence of `p` in `s`.
pub fn after_first_of(s: &Vec<char>, p: &Vec<char>) -> (r: Option<Vec<char>>)
    ensures
        match r {
            Some(v) => after_first(s@, p@) == Some(v@),
            None => after_first(s@, p@) is None,
        },
{
    match find_at(s, p) {
        Some(i) => {
            proof {
                lemma_find_from_matches(s@, p@, 0);
                assert(matches_at(s@, p@, i as int));
                assert(i + p.len() <= s.len());
            }
            let r = slice(s, i + p.len(), s.len());
            assert(r@ =~= s@.skip(i + p.len()));
            Some(r)
        },
        None => None,
    }
}

/// A position that `find_from` reports holds a match.
pub proof fn lemma_find_from_matches(s: Seq<char>, p: Seq<char>, i: int)
    ensures
        find_from(s, p, i) matches Some(k) ==> matches_at(s, p, k) && i <= k,
    decreases s.len() + 1 - i,
{
    if !(i < 0 || i + p.len() > s.len()) && !matches_at(s, p, i) {
        lemma_find_from_matches(s, p, i + 1);
    }
}

/// The part of `s` before its first `c`, or all of `s`.
pub fn before_char_of(s: &Vec<char>, c: char) -> (r: Vec<char>)
    ensures
        r@ == before_char(s@, c),
{
    match index_of_char(s, c) {
        Some(i) => {
            proof {
                lemma_index_of_bound(s@, c);
                assert(i < s.len());
            }
            let r = slice(s, 0, i);
            assert(r@ =~= s@.take(i as int));
            r
        },
        None => s.clone(),
    }
}

/// A first occurrence lies inside the text.
pub proof fn lemma_index_of_bound(s: Seq<char>, c: char)
    ensures
        index_of(s, c) matches Some(i) ==> 0 <= i < s.len() && s[i] == c,
    decreases s.len(),
{
    if s.len() > 0 && s[0] != c {
        lemma_index_of_bound(s.drop_first(), c);
    }
}

/// A last occurrence lies inside the text.
pub proof fn lemma_last_index_of_bound(s: Seq<char>, c: char)
    ensures
        last_index_of(s, c) matches Some(i) ==> 0 <= i < s.len() && s[i] == c,
    decreases s.len(),
{
    if s.len() > 0 && s.last() != c {
        lemma_last_index_of_bound(s.drop_last(), c);
    }
}

/// The part of `s` after its last `c`, or all of `s`.
pub fn after_last_char_of(s: &Vec<char>, c: char) -> (r: Vec<char>)
    ensures
        r@ == after_last_char(s@, c),
{
    match last_index_of_char(s, c) {
        Some(i) => {
            proof {
                lemma_last_index_of_bound(s@, c);
                assert(i < s.len());
            }
            let r = slice(s, i + 1, s.len());
            assert(r@ =~= s@.skip(i + 1));
            r
        },
        None => s.clone(),
    }
}

/// `str::split` with a char.
pub fn split_on(s: &Vec<char>, c: char) -> (r: Vec<Vec<char>>)
    ensures
        views(r@) == split_char(s@, c),
{
    let mut done: Vec<Vec<char>> = Vec::new();
    let mut cur: Vec<char> = Vec::new();
    for i in 0..s.len()
        invariant
            views(done@).push(cur@) == split_char(s@.take(i as int), c),
    {
        let ghost prev = s@.take(i as int);
        assert(s@.take(i + 1).drop_last() == prev);
        if s[i] == c {
            let piece = cur;
            proof {
                assert(views(done@).push(piece@).push(Seq::<char>::empty()) =~= split_char(
                    s@.take(i + 1),
                    c,
                ));
            }
            done.push(piece);
            cur = Vec::new();
            assert(views(done@) =~= split_char(prev, c));
        } else {
            let ghost d = views(done@);
            cur.push(s[i]);
            assert(d.push(cur@) =~= split_char(s@.take(i + 1), c));
        }
    }
    assert(s@.take(s.len() as int) == s@);
    let ghost d = views(done@);
    done.push(cur);
    assert(views(done@) =~= d.push(cur@));
    done
}

/// `str::lines`.
pub fn lines_of(s: &Vec<char>) -> (r: Vec<Vec<char>>)
    ensures
        views(r@) == lines(s@),
{
    if s.len() == 0 {
        let r: Vec<Vec<char>> = Vec::new();
        assert(views(r@) =~= lines(s@));
        return r;
    }
    let parts = split_on(s, '\n');
    let ghost pv = views(parts@);
    let ghost closed = pv.drop_last().map_values(|l: Seq<char>| strip_cr(l));
    assert(pv.len() >= 1) by {
        lemma_split_nonempty(s@, '\n');
    }
    let mut r: Vec<Vec<char>> = Vec::new();
    let n: usize = parts.len() - 1;
    for i in 0..n
        invariant
            n + 1 == parts.len(),
            pv == views(parts@),
            closed == pv.drop_last().map_values(|l: Seq<char>| strip_cr(l)),
            views(r@) == closed.take(i as int),
    {
        let p = &parts[i];
        let l: Vec<char> = if p.len() > 0 && p[p.len() - 1] == '\r' {
            slice(p, 0, p.len() - 1)
        } else {
            p.clone()
        };
        assert(pv[i as int] == p@);
        assert(l@ =~= strip_cr(p@));
        let ghost d = views(r@);
        r.push(l);
        assert(views(r@) =~= d.push(l@));
        assert(closed.take(i + 1) =~= closed.take(i as int).push(closed[i as int]));
    }
    assert(closed.take(n as int) =~= closed);
    if s[s.len() - 1] == '\n' {
        r
    } else {
        let last = parts[n].clone();
        assert(pv[n as int] == last@);
        let ghost d = views(r@);
        r.push(last);
        assert(views(r@) =~= d.push(last@));
        r
    }
}

/// Splitting always gives at least one part.
pub proof fn lemma_split_nonempty(s: Seq<char>, c: char)
    ensures
        split_char(s, c).len() >= 1,
    decreases s.len(),
{
    if s.len() > 0 {
        lemma_split_nonempty(s.drop_last(), c);
    }
}

/// The lines of a text that ends a line come first among the lines of any
/// longer text: what follows a line ending never changes the lines before it.
pub proof fn lemma_lines_extend(a: Seq<char>, b: Seq<char>)
    ensures
        lines(a + seq!['\n']).len() <= lines(a + seq!['\n'] + b).len(),
        lines(a + seq!['\n'] + b).take(lines(a + seq!['\n']).len() as int) == lines(a + seq!['\n']),
{
    let a1 = a + seq!['\n'];
    let t = a + seq!['\n'] + b;
    let pa = split_char(a, '\n');
    let pb = split_char(b, '\n');
    let e = Seq::<char>::empty();
    crate::paths::lemma_split_around(a, e, '\n');
    crate::paths::lemma_split_around(a, b, '\n');
    lemma_split_nonempty(b, '\n');
    assert(a + seq!['\n'] + e =~= a1);
    assert(split_char(e, '\n') =~= seq![e]);
    assert(split_char(a1, '\n') == pa + seq![e]);
    assert((pa + seq![e]).drop_last() =~= pa);
    assert(a1.last() == '\n');
    let ma = pa.map_values(|l: Seq<char>| strip_cr(l));
    assert(lines(a1) == ma);
    let closed = (pa + pb).drop_last().map_values(|l: Seq<char>| strip_cr(l));
    assert(closed.len() >= ma.len());
    assert(closed.take(ma.len() as int) =~= ma);
    if t.last() == '\n' {
        assert(lines(t) == closed);
    } else {
        assert(lines(t) == closed.push(split_char(t, '\n').last()));
        assert(closed.push(split_char(t, '\n').last()).take(ma.len() as int) =~= ma);
    }
}

/// Once an item of `s` gives a result, items after `s` do not change it.
pub proof fn lemma_first_some_prefix<A, B>(s: Seq<A>, t: Seq<A>, f: spec_fn(A) -> Option<B>)
    requires
        first_some(s, f) is Some,
    ensures
        first_some(s + t, f) == first_some(s, f),
    decreases s.len(),
{
    assert((s + t)[0] == s[0]);
    if f(s[0]) is None {
        assert((s + t).drop_first() =~= s.drop_first() + t);
        lemma_first_some_prefix(s.drop_first(), t, f);
    }
}

/// A text holds each of its pieces.
pub proof fn lemma_contains_middle(x: Seq<char>, p: Seq<char>, y: Seq<char>)
    ensures
        contains(x + p + y, p),
{
    let s = x + p + y;
    assert(s.subrange(x.len() as int, (x.len() + p.len()) as int) =~= p);
    lemma_find_reaches(s, p, 0, x.len() as int);
}

/// A search that starts at or before a match finds one.
pub proof fn lemma_find_reaches(s: Seq<char>, p: Seq<char>, j: int, i: int)
    requires
        0 <= j <= i,
        matches_at(s, p, i),
    ensures
        find_from(s, p, j) is Some,
    decreases i - j,
{
    if j < i && !matches_at(s, p, j) {
        lemma_find_reaches(s, p, j + 1, i);
    }
}

/// `str::split_whitespace`.
pub fn ws_split(s: &Vec<char>) -> (r: Vec<Vec<char>>)
    ensures
        views(r@) == ws_tokens(s@),
{
    let mut done: Vec<Vec<char>> = Vec::new();
    let mut cur: Vec<char> = Vec::new();
    for i in 0..s.len()
        invariant
            ws_state(s@.take(i as int)) == (views(done@), cur@),
    {
        assert(s@.take(i + 1).drop_last() == s@.take(i as int));
        assert(s@.take(i + 1).last() == s@[i as int]);
        if is_whitespace(s[i]) {
            if cur.len() > 0 {
                let ghost d = views(done@);
                let piece = cur;
                done.push(piece);
                assert(views(done@) =~= d.push(piece@));
                cur = Vec::new();
                assert(cur@ =~= Seq::<char>::empty());
            }
        } else {
            cur.push(s[i]);
        }
    }
    assert(s@.take(s.len() as int) == s@);
    if cur.len() > 0 {
        let ghost d = views(done@);
        let piece = cur;
        done.push(piece);
        assert(views(done@) =~= d.push(piece@));
    }
    done
}

/// `str::replace`; `p` is not empty.
pub fn replace_in(s: &Vec<char>, p: &Vec<char>, r: &Vec<char>) -> (out: Vec<char>)
    requires
        p.len() > 0,
    ensures
        out@ == replace_all(s@, p@, r@),
{
    let mut out: Vec<char> = Vec::new();
    let mut i: usize = 0;
    assert(s@.skip(0) =~= s@);
    assert(out@ + replace_all(s@, p@, r@) =~= replace_all(s@, p@, r@));
    while i < s.len()
        invariant
            0 <= i <= s.len(),
            p.len() > 0,
            out@ + replace_all(s@.skip(i as int), p@, r@) == replace_all(s@, p@, r@),
        decreases s.len() - i,
    {
        let ghost rest = s@.skip(i as int);
        if matches_here(s, p, i) {
            assert(starts_with(rest, p@)) by {
                assert(rest.take(p.len() as int) =~= s@.subrange(i as int, i + p.len()));
            }
            assert(rest.skip(p.len() as int) =~= s@.skip(i + p.len()));
            let ghost o = out@;
            extend(&mut out, r);
            assert(out@ + replace_all(s@.skip(i + p.len()), p@, r@) =~= o + replace_all(
                rest,
                p@,
                r@,
            ));
            i = i + p.len();
        } else {
            assert(!starts_with(rest, p@)) by {
                if p.len() <= rest.len() {
                    assert(rest.take(p.len() as int) =~= s@.subrange(i as int, i + p.len()));
                }
            }
            assert(rest.drop_first() =~= s@.skip(i + 1));
            let ghost o = out@;
            out.push(s[i]);
            assert(out@ + replace_all(s@.skip(i + 1), p@, r@) =~= o + replace_all(rest, p@, r@));
            i = i + 1;
        }
    }
    assert(s@.skip(i as int).len() == 0);
    assert(out@ + Seq::<char>::empty() =~= out@);
    out
}

/// `str::trim_start_matches` with a string pattern.
pub fn strip_prefixes_of(s: &Vec<char>, p: &Vec<char>) -> (r: Vec<char>)
    ensures
        r@ == strip_prefixes(s@, p@),
{
    if p.len() == 0 {
        return s.clone();
    }
    let mut i: usize = 0;
    assert(s@.skip(0) =~= s@);
    while i <= s.len() && p.len() <= s.len() - i && matches_here(s, p, i)
        invariant
            0 <= i <= s.len(),
            p.len() > 0,
            strip_prefixes(s@.skip(i as int), p@) == strip_prefixes(s@, p@),
        decreases s.len() - i,
    {
        let ghost rest = s@.skip(i as int);
        assert(rest.take(p.len() as int) =~= s@.subrange(i as int, i + p.len()));
        assert(rest.skip(p.len() as int) =~= s@.skip(i + p.len()));
        i = i + p.len();
    }
    let ghost rest = s@.skip(i as int);
    assert(!starts_with(rest, p@)) by {
        if p.len() <= rest.len() {
            assert(rest.take(p.len() as int) =~= s@.subrange(i as int, i + p.len()));
        }
    }
    let r = slice(s, i, s.len());
    assert(r@ =~= rest);
    r
}

/// `str::trim_end_matches` with a string pattern.
pub fn strip_suffixes_of(s: &Vec<char>, p: &Vec<char>) -> (r: Vec<char>)
    ensures
        r@ == strip_suffixes(s@, p@),
{
    if p.len() == 0 {
        return s.clone();
    }
    let mut j: usize = s.len();
    assert(s@.take(s.len() as int) =~= s@);
    while p.len() <= j && matches_here(s, p, j - p.len())
        invariant
            0 <= j <= s.len(),
            p.len() > 0,
            strip_suffixes(s@.take(j as int), p@) == strip_suffixes(s@, p@),
        decreases j,
    {
        let ghost head = s@.take(j as int);
        assert(head.skip(head.len() - p.len()) =~= s@.subrange(j - p.len(), j as int));
        assert(head.take(head.len() - p.len()) =~= s@.take(j - p.len()));
        j = j - p.len();
    }
    let ghost head = s@.take(j as int);
    assert(!ends_with(head, p@)) by {
        if p.len() <= head.len() {
            assert(head.skip(head.len() - p.len()) =~= s@.subrange(j - p.len(), j as int));
        }
    }
    let r = slice(s, 0, j);
    assert(r@ =~= head);
    r
}

/// `str::parse::<u32>`.
pub fn parse_number(s: &Vec<char>) -> (r: Option<u32>)
    ensures
        r == parse_u32(s@),
{
    let start: usize = if s.len() > 0 && s[0] == '+' {
        1
    } else {
        0
    };
    let d = slice(s, start, s.len());
    assert(d@ =~= (if s@.len() > 0 && s@[0] == '+' {
        s@.drop_first()
    } else {
        s@
    }));
    if d.len() == 0 {
        return None;
    }
    let mut value: u64 = 0;
    let mut i: usize = 0;
    while i < d.len()
        invariant
            0 <= i <= d.len(),
            d@ == (if s@.len() > 0 && s@[0] == '+' {
                s@.drop_first()
            } else {
                s@
            }),
            all_digits(d@.take(i as int)),
            value == digits_value(d@.take(i as int)),
            value <= u32::MAX,
        decreases d.len() - i,
    {
        let c = d[i];
        let ghost pre = d@.take(i as int);
        let ghost next = d@.take(i + 1);
        assert(next.drop_last() =~= pre);
        if !('0' <= c && c <= '9') {
            assert(!is_digit(d@[i as int]));
            assert(!all_digits(d@));
            return None;
        }
        let dv: u64 = (c as u32 - '0' as u32) as u64;
        value = value * 10 + dv;
        assert forall|k: int| 0 <= k < next.len() implies is_digit(#[trigger] next[k]) by {
            if k < pre.len() {
                assert(next[k] == pre[k]);
            }
        }
        if value > 0xFFFF_FFFF {
            proof {
                if all_digits(d@) {
                    lemma_digits_prefix_grows(d@, i + 1);
                }
            }
            return None;
        }
        i = i + 1;
    }
    assert(d@.take(d.len() as int) =~= d@);
    Some(value as u32)
}

/// A value of a digit string is at least that of any of its prefixes.
pub proof fn lemma_digits_prefix_grows(d: Seq<char>, n: int)
    requires
        0 <= n <= d.len(),
        all_digits(d),
    ensures
        digits_value(d.take(n)) <= digits_value(d),
    decreases d.len() - n,
{
    if n < d.len() {
        let t = d.drop_last();
        assert forall|k: int| 0 <= k < t.len() implies is_digit(#[trigger] t[k]) by {
            assert(t[k] == d[k]);
        }
        lemma_digits_prefix_grows(t, n);
        assert(t.take(n) =~= d.take(n));
    } else {
        assert(d.take(n) =~= d);
    }
}

/// The decimal digits of `n` (`u32::to_string`).
pub fn decimal_of(n: u32) -> (r: Vec<char>)
    ensures
        r@ == decimal(n as nat),
    decreases n,
{
    if n < 10 {
        let mut r: Vec<char> = Vec::new();
        r.push(((n + 48) as u8) as char);
        assert(r@ =~= seq![digit_char(n as nat)]);
        r
    } else {
        let mut r = decimal_of(n / 10);
        r.push((((n % 10) + 48) as u8) as char);
        r
    }
}

/// `n` zero-padded to at least two digits (`format!("{:02}", n)`).
pub fn decimal_pad2_of(n: u32) -> (r: Vec<char>)
    ensures
        r@ == decimal_pad2(n as nat),
{
    if n < 10 {
        let mut r: Vec<char> = Vec::new();
        r.push('0');
        let d = decimal_of(n);
        extend(&mut r, &d);
        assert(r@ =~= seq!['0'] + decimal(n as nat));
        r
    } else {
        decimal_of(n)
    }
}

/// The pieces joined with `sep` between neighbours.
pub fn join_with(parts: &Vec<Vec<char>>, sep: &Vec<char>) -> (r: Vec<char>)
    ensures
        r@ == join(views(parts@), sep@),
{
    let mut r: Vec<char> = Vec::new();
    for i in 0..parts.len()
        invariant
            r@ == join(views(parts@).take(i as int), sep@),
    {
        let ghost pv = views(parts@);
        assert(pv.take(i + 1).drop_last() =~= pv.take(i as int));
        assert(pv.take(i + 1).last() == parts[i as int]@);
        if i > 0 {
            extend(&mut r, sep);
        } else {
            assert(pv.take(1) =~= seq![parts[0]@]);
        }
        extend(&mut r, &parts[i]);
    }
    assert(views(parts@).take(parts.len() as int) =~= views(parts@));
    r
}

/// The characters of a string literal or other string slice, as a `String`.
pub fn owned(s: &str) -> (r: String)
    ensures
        r@ == s@,
{
    String::from_str(s)
}

} // verus!
