//! Character-level string helpers with exact specifications.
//!
//! Strings are modelled by their character sequences (`s@`).  The helpers
//! here are the small pieces of `str` behaviour that the rest of the crate
//! relies on: Unicode whitespace trimming, ASCII case folding, substring
//! search and lexicographic ordering by code point.
use vstd::prelude::*;

verus! {

/// Appends one character to a string (`String::push`).
#[verifier::external_body]
pub(crate) fn push_char(s: &mut String, c: char)
    ensures
        final(s)@ == old(s)@.push(c),
{
    s.push(c);
}

/// Unicode `White_Space`, which is what `char::is_whitespace` tests.
pub open spec fn is_ws(c: char) -> bool {
    let u = c as u32;
    ||| 9 <= u <= 13
    ||| u == 32
    ||| u == 0x85
    ||| u == 0xA0
    ||| u == 0x1680
    ||| 0x2000 <= u <= 0x200A
    ||| u == 0x2028
    ||| u == 0x2029
    ||| u == 0x202F
    ||| u == 0x205F
    ||| u == 0x3000
}

pub open spec fn trim_left(s: Seq<char>) -> Seq<char>
    decreases s.len(),
{
    if s.len() > 0 && is_ws(s[0]) {
        trim_left(s.drop_first())
    } else {
        s
    }
}

pub open spec fn trim_right(s: Seq<char>) -> Seq<char>
    decreases s.len(),
{
    if s.len() > 0 && is_ws(s.last()) {
        trim_right(s.drop_last())
    } else {
        s
    }
}

/// `str::trim`: leading and trailing whitespace removed.
pub open spec fn trimmed(s: Seq<char>) -> Seq<char> {
    trim_right(trim_left(s))
}

/// A string that is empty after trimming.
pub open spec fn is_blank(s: Seq<char>) -> bool {
    trimmed(s).len() == 0
}

pub open spec fn is_ascii_upper(c: char) -> bool {
    65 <= (c as u32) <= 90
}

pub open spec fn lower_char(c: char) -> char {
    if is_ascii_upper(c) {
        ((c as u32) + 32) as char
    } else {
        c
    }
}

/// `str::to_ascii_lowercase`.
pub open spec fn ascii_lower(s: Seq<char>) -> Seq<char> {
    s.map_values(|c: char| lower_char(c))
}

pub open spec fn starts_with(s: Seq<char>, p: Seq<char>) -> bool {
    p.len() <= s.len() && s.subrange(0, p.len() as int) == p
}

pub open spec fn ends_with(s: Seq<char>, p: Seq<char>) -> bool {
    p.len() <= s.len() && s.subrange(s.len() - p.len(), s.len() as int) == p
}

pub open spec fn occurs_at(s: Seq<char>, p: Seq<char>, i: int) -> bool {
    0 <= i && i + p.len() <= s.len() && s.subrange(i, i + p.len()) == p
}

/// `str::contains` for a string pattern.
pub open spec fn contains(s: Seq<char>, p: Seq<char>) -> bool {
    exists|i: int| occurs_at(s, p, i)
}

/// Three-way order, used in place of `std::cmp::Ordering`.
#[derive(Clone, Copy, Debug, PartialEq, Eq, Structural)]
pub enum Order {
    Less,
    Equal,
    Greater,
}

impl Order {
    pub open spec fn flip(self) -> Order {
        match self {
            Order::Less => Order::Greater,
            Order::Equal => Order::Equal,
            Order::Greater => Order::Less,
        }
    }

    /// `Ordering::then`: the second order decides only on a tie.
    pub open spec fn tie(self, other: Order) -> Order {
        match self {
            Order::Equal => other,
            _ => self,
        }
    }
}

/// Orders two integers.
pub open spec fn int_order(a: int, b: int) -> Order {
    if a < b {
        Order::Less
    } else if a == b {
        Order::Equal
    } else {
        Order::Greater
    }
}

/// Lexicographic order by code point, which is the order of `str` and of
/// the UTF-8 bytes of two strings.
pub open spec fn lex(a: Seq<char>, b: Seq<char>) -> Order
    decreases a.len(),
{
    if a.len() == 0 {
        if b.len() == 0 {
            Order::Equal
        } else {
            Order::Less
        }
    } else if b.len() == 0 {
        Order::Greater
    } else if (a[0] as u32) < (b[0] as u32) {
        Order::Less
    } else if (a[0] as u32) > (b[0] as u32) {
        Order::Greater
    } else {
        lex(a.drop_first(), b.drop_first())
    }
}

pub proof fn lemma_char_eq(a: char, b: char)
    requires
        a as u32 == b as u32,
    ensures
        a == b,
{
}

pub proof fn lemma_lex_equal(a: Seq<char>, b: Seq<char>)
    ensures
        (lex(a, b) == Order::Equal) <==> (a == b),
    decreases a.len(),
{
    if a.len() > 0 && b.len() > 0 {
        lemma_lex_equal(a.drop_first(), b.drop_first());
        if a == b {
            assert(a.drop_first() =~= b.drop_first());
            assert(lex(a, b) == lex(a.drop_first(), b.drop_first()));
        }
        if lex(a, b) == Order::Equal {
            assert((a[0] as u32) == (b[0] as u32));
            lemma_char_eq(a[0], b[0]);
            assert(a.drop_first() == b.drop_first());
            assert(a =~= seq![a[0]] + a.drop_first());
            assert(b =~= seq![b[0]] + b.drop_first());
        }
    } else if a.len() == 0 && b.len() == 0 {
        assert(a =~= b);
    } else {
        assert(a.len() != b.len());
    }
}

pub proof fn lemma_lex_flip(a: Seq<char>, b: Seq<char>)
    ensures
        lex(b, a) == lex(a, b).flip(),
    decreases a.len(),
{
    if a.len() > 0 && b.len() > 0 {
        lemma_lex_flip(a.drop_first(), b.drop_first());
    }
}

pub proof fn lemma_lex_trans(a: Seq<char>, b: Seq<char>, c: Seq<char>)
    requires
        lex(a, b) != Order::Greater,
        lex(b, c) != Order::Greater,
    ensures
        lex(a, c) != Order::Greater,
        (lex(a, b) == Order::Less || lex(b, c) == Order::Less) ==> lex(a, c) == Order::Less,
    decreases a.len(),
{
    if a.len() > 0 && b.len() > 0 && c.len() > 0 {
        if (a[0] as u32) == (b[0] as u32) && (b[0] as u32) == (c[0] as u32) {
            lemma_lex_trans(a.drop_first(), b.drop_first(), c.drop_first());
        }
    }
}

/// Three comparisons `a : b`, `b : c` and `a : c` agree with a transitive
/// order.
pub open spec fn ord_trans(ab: Order, bc: Order, ac: Order) -> bool {
    &&& (ab != Order::Greater && bc != Order::Greater ==> ac != Order::Greater)
    &&& (ab == Order::Less && bc != Order::Greater ==> ac == Order::Less)
    &&& (ab != Order::Greater && bc == Order::Less ==> ac == Order::Less)
    &&& (ab == Order::Equal && bc == Order::Equal ==> ac == Order::Equal)
}

/// A lexicographic combination of two transitive orders is transitive.
pub proof fn lemma_tie_trans(f_ab: Order, f_bc: Order, f_ac: Order, g_ab: Order, g_bc: Order, g_ac: Order)
    requires
        ord_trans(f_ab, f_bc, f_ac),
        ord_trans(g_ab, g_bc, g_ac),
    ensures
        ord_trans(f_ab.tie(g_ab), f_bc.tie(g_bc), f_ac.tie(g_ac)),
{
}

pub proof fn lemma_int_order(a: int, b: int, c: int)
    ensures
        ord_trans(int_order(a, b), int_order(b, c), int_order(a, c)),
        int_order(b, a) == int_order(a, b).flip(),
{
}

pub proof fn lemma_lex_ord(a: Seq<char>, b: Seq<char>, c: Seq<char>)
    ensures
        ord_trans(lex(a, b), lex(b, c), lex(a, c)),
        lex(b, a) == lex(a, b).flip(),
{
    lemma_lex_flip(a, b);
    lemma_lex_equal(a, b);
    lemma_lex_equal(b, c);
    if lex(a, b) != Order::Greater && lex(b, c) != Order::Greater {
        lemma_lex_trans(a, b, c);
    }
}

/// The characters of a string slice, in order.
pub fn chars_of(s: &str) -> (res: Vec<char>)
    ensures
        res@ == s@,
{
    let mut out: Vec<char> = Vec::new();
    for c in it: s.chars()
        invariant
            out@ == it.seq().take(it.index() as int),
            it.seq() == s@,
    {
        out.push(c);
    }
    out
}

/// Builds a string from a run of characters.
pub fn string_from_chars(cs: &[char]) -> (res: String)
    ensures
        res@ == cs@,
{
    let mut out = String::new();
    let mut i: usize = 0;
    while i < cs.len()
        invariant
            i <= cs@.len(),
            out@ == cs@.take(i as int),
        decreases cs@.len() - i,
    {
        push_char(&mut out, cs[i]);
        assert(cs@.take(i + 1) =~= cs@.take(i as int).push(cs@[i as int]));
        i = i + 1;
    }
    assert(cs@.take(cs@.len() as int) =~= cs@);
    out
}

proof fn lemma_trim_left_step(s: Seq<char>, i: int)
    requires
        0 <= i < s.len(),
        is_ws(s[i]),
    ensures
        trim_left(s.subrange(i, s.len() as int)) == trim_left(s.subrange(i + 1, s.len() as int)),
{
    let t = s.subrange(i, s.len() as int);
    assert(t.drop_first() =~= s.subrange(i + 1, s.len() as int));
}

proof fn lemma_trim_right_step(s: Seq<char>, j: int)
    requires
        0 < j <= s.len(),
        is_ws(s[j - 1]),
    ensures
        trim_right(s.subrange(0, j)) == trim_right(s.subrange(0, j - 1)),
{
    let t = s.subrange(0, j);
    assert(t.drop_last() =~= s.subrange(0, j - 1));
}

/// The bounds `(start, end)` of `s` with surrounding whitespace removed.
pub fn trim_bounds(cs: &[char]) -> (res: (usize, usize))
    ensures
        res.0 <= res.1 <= cs@.len(),
        cs@.subrange(res.0 as int, res.1 as int) == trimmed(cs@),
{
    let n = cs.len();
    let mut i: usize = 0;
    proof {
        assert(cs@.subrange(0, n as int) =~= cs@);
    }
    while i < n && is_whitespace(cs[i])
        invariant
            i <= n == cs@.len(),
            trim_left(cs@) == trim_left(cs@.subrange(i as int, n as int)),
        decreases n - i,
    {
        proof {
            lemma_trim_left_step(cs@, i as int);
        }
        i = i + 1;
    }
    let ghost left = cs@.subrange(i as int, n as int);
    assert(trim_left(cs@) == left) by {
        if left.len() > 0 {
            assert(left[0] == cs@[i as int]);
        }
    }
    let mut j: usize = n;
    while j > i && is_whitespace(cs[j - 1])
        invariant
            i <= j <= n == cs@.len(),
            left == cs@.subrange(i as int, n as int),
            trim_right(left) == trim_right(cs@.subrange(i as int, j as int)),
        decreases j,
    {
        proof {
            let sub = cs@.subrange(i as int, n as int);
            lemma_trim_right_step(sub, (j - i) as int);
            assert(sub.subrange(0, (j - i) as int) =~= cs@.subrange(i as int, j as int));
            assert(sub.subrange(0, (j - i - 1) as int) =~= cs@.subrange(i as int, (j - 1) as int));
        }
        j = j - 1;
    }
    proof {
        let r = cs@.subrange(i as int, j as int);
        if r.len() > 0 {
            assert(r.last() == cs@[j - 1]);
        }
    }
    (i, j)
}

/// `char::is_whitespace`.
pub fn is_whitespace(c: char) -> (res: bool)
    ensures
        res == is_ws(c),
{
    let u = c as u32;
    (9 <= u && u <= 13) || u == 32 || u == 0x85 || u == 0xA0 || u == 0x1680 || (0x2000 <= u
        && u <= 0x200A) || u == 0x2028 || u == 0x2029 || u == 0x202F || u == 0x205F || u == 0x3000
}

/// `str::trim`, as an owned string.
pub fn trim(s: &str) -> (res: String)
    ensures
        res@ == trimmed(s@),
{
    let cs = chars_of(s);
    let (i, j) = trim_bounds(cs.as_slice());
    string_from_chars(slice_sub(cs.as_slice(), i, j))
}

/// `s.trim().is_empty()`.
pub fn is_blank_str(s: &str) -> (res: bool)
    ensures
        res == is_blank(s@),
{
    let cs = chars_of(s);
    let (i, j) = trim_bounds(cs.as_slice());
    i == j
}

/// A subslice by character positions.
pub(crate) fn slice_sub<'a>(cs: &'a [char], from: usize, to: usize) -> (res: &'a [char])
    requires
        from <= to <= cs@.len(),
    ensures
        res@ == cs@.subrange(from as int, to as int),
{
    &cs[from..to]
}

/// `char::to_ascii_lowercase`.
pub fn lower(c: char) -> (res: char)
    ensures
        res == lower_char(c),
{
    let u = c as u32;
    if 65 <= u && u <= 90 {
        let b: u8 = (u + 32) as u8;
        let r = b as char;
        assert(r as u32 == u + 32);
        r
    } else {
        c
    }
}

/// `str::to_ascii_lowercase`.
pub fn to_ascii_lowercase(s: &str) -> (res: String)
    ensures
        res@ == ascii_lower(s@),
{
    let cs = chars_of(s);
    let mut out = String::new();
    let mut i: usize = 0;
    while i < cs.len()
        invariant
            i <= cs@.len(),
            cs@ == s@,
            out@ == ascii_lower(s@).take(i as int),
        decreases cs@.len() - i,
    {
        let c = lower(cs[i]);
        push_char(&mut out, c);
        assert(ascii_lower(s@).take(i + 1) =~= ascii_lower(s@).take(i as int).push(c));
        i = i + 1;
    }
    assert(ascii_lower(s@).take(cs@.len() as int) =~= ascii_lower(s@));
    out
}

/// Whether `p` occurs in `s` at position `i`.
pub fn chars_occur_at(s: &[char], p: &[char], i: usize) -> (res: bool)
    requires
        i <= s@.len(),
    ensures
        res == occurs_at(s@, p@, i as int),
{
    if p.len() > s.len() - i {
        return false;
    }
    let mut k: usize = 0;
    while k < p.len()
        invariant
            i + p@.len() <= s@.len(),
            k <= p@.len(),
            forall|m: int| 0 <= m < k ==> s@[i + m] == p@[m],
        decreases p@.len() - k,
    {
        assert(i + k < s@.len());
        assert(s@.len() == s.len());
        if s[i + k] != p[k] {
            assert(s@.subrange(i as int, i + p@.len())[k as int] != p@[k as int]);
            return false;
        }
        k = k + 1;
    }
    assert(s@.subrange(i as int, i + p@.len()) =~= p@);
    true
}

/// `str::contains` over character runs.
pub fn chars_contain(s: &[char], p: &[char]) -> (res: bool)
    ensures
        res == contains(s@, p@),
{
    let mut i: usize = 0;
    while i < s.len()
        invariant
            i <= s@.len(),
            forall|m: int| 0 <= m < i ==> !occurs_at(s@, p@, m),
        decreases s@.len() - i,
    {
        if chars_occur_at(s, p, i) {
            return true;
        }
        i = i + 1;
    }
    if chars_occur_at(s, p, i) {
        return true;
    }
    assert forall|m: int| !occurs_at(s@, p@, m) by {
        if 0 <= m && m + p@.len() <= s@.len() {
            assert(m <= i);
        }
    }
    false
}

/// `str::contains`.
pub fn str_contains(s: &str, p: &str) -> (res: bool)
    ensures
        res == contains(s@, p@),
{
    let cs = chars_of(s);
    let ps = chars_of(p);
    chars_contain(cs.as_slice(), ps.as_slice())
}

/// `str::starts_with` for a string pattern.
pub fn str_starts_with(s: &str, p: &str) -> (res: bool)
    ensures
        res == starts_with(s@, p@),
{
    let cs = chars_of(s);
    let ps = chars_of(p);
    chars_occur_at(cs.as_slice(), ps.as_slice(), 0)
}

/// `str::ends_with` for a string pattern.
pub fn str_ends_with(s: &str, p: &str) -> (res: bool)
    ensures
        res == ends_with(s@, p@),
{
    let cs = chars_of(s);
    let ps = chars_of(p);
    if ps.len() > cs.len() {
        return false;
    }
    chars_occur_at(cs.as_slice(), ps.as_slice(), cs.len() - ps.len())
}

/// Equality of two strings by their characters.
pub fn str_eq(a: &str, b: &str) -> (res: bool)
    ensures
        res == (a@ == b@),
{
    let x = chars_of(a);
    let y = chars_of(b);
    if x.len() != y.len() {
        return false;
    }
    let r = chars_occur_at(x.as_slice(), y.as_slice(), 0);
    assert(x@.subrange(0, y@.len() as int) =~= x@);
    r
}

/// Lexicographic order of two character runs.
pub fn lex_chars(a: &[char], b: &[char]) -> (res: Order)
    ensures
        res == lex(a@, b@),
{
    let mut i: usize = 0;
    proof {
        assert(a@.subrange(0, a@.len() as int) =~= a@);
        assert(b@.subrange(0, b@.len() as int) =~= b@);
    }
    while i < a.len() && i < b.len() && a[i] == b[i]
        invariant
            i <= a@.len(),
            i <= b@.len(),
            lex(a@, b@) == lex(a@.subrange(i as int, a@.len() as int), b@.subrange(i as int, b@.len() as int)),
        decreases a@.len() - i,
    {
        proof {
            let x = a@.subrange(i as int, a@.len() as int);
            let y = b@.subrange(i as int, b@.len() as int);
            assert(x.drop_first() =~= a@.subrange(i + 1, a@.len() as int));
            assert(y.drop_first() =~= b@.subrange(i + 1, b@.len() as int));
        }
        i = i + 1;
    }
    proof {
        let x = a@.subrange(i as int, a@.len() as int);
        let y = b@.subrange(i as int, b@.len() as int);
        if i < a@.len() && i < b@.len() {
            assert(x[0] == a@[i as int]);
            assert(y[0] == b@[i as int]);
            if (a@[i as int] as u32) == (b@[i as int] as u32) {
                lemma_char_eq(a@[i as int], b@[i as int]);
            }
        }
    }
    if i == a.len() {
        if i == b.len() {
            Order::Equal
        } else {
            Order::Less
        }
    } else if i == b.len() {
        Order::Greater
    } else if (a[i] as u32) < (b[i] as u32) {
        Order::Less
    } else {
        Order::Greater
    }
}

/// Lexicographic order of two strings.
pub fn lex_str(a: &str, b: &str) -> (res: Order)
    ensures
        res == lex(a@, b@),
{
    let x = chars_of(a);
    let y = chars_of(b);
    lex_chars(x.as_slice(), y.as_slice())
}

/// A copy of a string slice.
pub fn owned(s: &str) -> (res: String)
    ensures
        res@ == s@,
{
    s.to_owned()
}

/// Joins two strings.
pub fn concat(a: &str, b: &str) -> (res: String)
    ensures
        res@ == a@ + b@,
{
    let mut out = a.to_owned();
    out.append(b);
    out
}


/// `[i, j)` is a line of `s` as `str::lines` yields it (before the
/// trailing carriage return is dropped): a maximal run without `'\n'`
/// that starts at the beginning or after a `'\n'`; a run that starts at
/// the very end is no line.
pub open spec fn is_line(s: Seq<char>, i: int, j: int) -> bool {
    &&& 0 <= i <= j <= s.len()
    &&& i < s.len()
    &&& (i == 0 || s[i - 1] == '\n')
    &&& (j == s.len() || s[j] == '\n')
    &&& forall|k: int| i <= k < j ==> s[k] != '\n'
}

/// Some line of `s`, trimmed, is `target` (`s.lines().any(|l| l.trim() ==
/// target)`).
pub open spec fn has_trimmed_line(s: Seq<char>, target: Seq<char>) -> bool {
    exists|i: int, j: int| is_line(s, i, j) && #[trigger] trimmed(s.subrange(i, j)) == target
}

/// Whether some line of `s`, trimmed, is `target`.
pub fn any_trimmed_line(s: &str, target: &str) -> (res: bool)
    ensures
        res == has_trimmed_line(s@, target@),
{
    let cs = chars_of(s);
    let n = cs.len();
    let mut start: usize = 0;
    let mut k: usize = 0;
    while k < n
        invariant
            start <= k <= n == cs@.len(),
            cs@ == s@,
            start == 0 || cs@[start - 1] == '\n',
            forall|m: int| start <= m < k ==> cs@[m] != '\n',
            forall|i: int, j: int| is_line(s@, i, j) && i < start ==> #[trigger] trimmed(s@.subrange(i, j)) != target@,
        decreases n - k,
    {
        if cs[k] == '\n' {
            let line = string_from_chars(slice_sub(cs.as_slice(), start, k));
            let t = trim(line.as_str());
            if str_eq(t.as_str(), target) {
                assert(is_line(s@, start as int, k as int));
                return true;
            }
            proof {
                assert forall|i: int, j: int| is_line(s@, i, j) && i < k + 1 implies #[trigger] trimmed(
                    s@.subrange(i, j),
                ) != target@ by {
                    if i >= start {
                        if i > start {
                            assert(s@[i - 1] != '\n');
                        }
                        if j > k {
                            assert(s@[k as int] != '\n');
                        }
                        assert(j == k);
                    }
                }
            }
            start = k + 1;
        }
        k = k + 1;
    }
    if start < n {
        let line = string_from_chars(slice_sub(cs.as_slice(), start, n));
        let t = trim(line.as_str());
        if str_eq(t.as_str(), target) {
            assert(is_line(s@, start as int, n as int));
            return true;
        }
    }
    proof {
        assert forall|i: int, j: int| is_line(s@, i, j) implies #[trigger] trimmed(s@.subrange(i, j)) != target@ by {
            if i >= start {
                if i > start {
                    assert(s@[i - 1] != '\n');
                }
                assert(j == n);
            }
        }
    }
    false
}

} // verus!

verus! {

/// The UTF-8 encoding of a string (`str::as_bytes`).
pub open spec fn utf8_bytes(s: Seq<char>) -> Seq<u8> {
    vstd::utf8::encode_utf8(s)
}

} // verus!

verus! {

/// A subslice of bytes.
pub(crate) fn byte_slice<'a>(bs: &'a [u8], from: usize, to: usize) -> (res: &'a [u8])
    requires
        from <= to <= bs@.len(),
    ensures
        res@ == bs@.subrange(from as int, to as int),
{
    &bs[from..to]
}

} // verus!
