//! Unix paths as strings: their components, the order and equality of
//! `Path` (component by component), `Path::join`, `Path::starts_with` and
//! lexical normalization.
use vstd::prelude::*;

use crate::text::{
    int_order, lemma_int_order, lemma_lex_equal, lemma_lex_flip, lemma_lex_ord, lemma_tie_trans, lex, lex_chars,
    ord_trans, push_char, Order,
};

verus! {

/// The `/`-separated segments of a path, empty ones included.
pub open spec fn seg_fold(s: Seq<char>, i: int) -> (Seq<Seq<char>>, Seq<char>)
    recommends
        0 <= i <= s.len(),
    decreases i,
{
    if i <= 0 {
        (Seq::empty(), Seq::empty())
    } else {
        let (done, cur) = seg_fold(s, i - 1);
        if s[i - 1] == '/' {
            (done.push(cur), Seq::empty())
        } else {
            (done, cur.push(s[i - 1]))
        }
    }
}

pub open spec fn segments(s: Seq<char>) -> Seq<Seq<char>> {
    let (done, cur) = seg_fold(s, s.len() as int);
    done.push(cur)
}

pub open spec fn is_absolute(s: Seq<char>) -> bool {
    s.len() > 0 && s[0] == '/'
}

/// Component kinds, in the order of `std::path::Component`.
pub open spec fn kind_root() -> int {
    0
}

pub open spec fn kind_cur() -> int {
    1
}

pub open spec fn kind_parent() -> int {
    2
}

pub open spec fn kind_normal() -> int {
    3
}

pub open spec fn seg_kind(seg: Seq<char>) -> int {
    if seg == seq!['.'] {
        kind_cur()
    } else if seg == seq!['.', '.'] {
        kind_parent()
    } else {
        kind_normal()
    }
}

/// Whether `Path::components` reports a segment: empty ones are dropped,
/// and `.` is reported only as the first segment of a relative path.
pub open spec fn seg_kept(seg: Seq<char>, i: int) -> bool {
    seg.len() > 0 && (seg != seq!['.'] || i == 0)
}

pub open spec fn comps_from(segs: Seq<Seq<char>>, i: int) -> Seq<(int, Seq<char>)>
    decreases segs.len() - i,
{
    if i >= segs.len() || i < 0 {
        Seq::empty()
    } else if seg_kept(segs[i], i) {
        seq![(seg_kind(segs[i]), segs[i])] + comps_from(segs, i + 1)
    } else {
        comps_from(segs, i + 1)
    }
}

/// `Path::components` of a Unix path: kind and text of each component.
pub open spec fn components(s: Seq<char>) -> Seq<(int, Seq<char>)> {
    let rest = comps_from(segments(s), 0);
    if is_absolute(s) {
        seq![(kind_root(), seq!['/'])] + rest
    } else {
        rest
    }
}

pub open spec fn comp_order(a: (int, Seq<char>), b: (int, Seq<char>)) -> Order {
    int_order(a.0, b.0).tie(lex(a.1, b.1))
}

pub open spec fn comps_order(a: Seq<(int, Seq<char>)>, b: Seq<(int, Seq<char>)>) -> Order
    decreases a.len(),
{
    if a.len() == 0 {
        if b.len() == 0 {
            Order::Equal
        } else {
            Order::Less
        }
    } else if b.len() == 0 {
        Order::Greater
    } else if comp_order(a[0], b[0]) != Order::Equal {
        comp_order(a[0], b[0])
    } else {
        comps_order(a.drop_first(), b.drop_first())
    }
}

/// The order of `Path`: component by component.
pub open spec fn path_order(a: Seq<char>, b: Seq<char>) -> Order {
    comps_order(components(a), components(b))
}

/// `Path` equality: same components.
pub open spec fn path_eq(a: Seq<char>, b: Seq<char>) -> bool {
    components(a) == components(b)
}

pub proof fn lemma_comp_order(a: (int, Seq<char>), b: (int, Seq<char>))
    ensures
        comp_order(b, a) == comp_order(a, b).flip(),
        (comp_order(a, b) == Order::Equal) <==> (a == b),
{
    lemma_lex_flip(a.1, b.1);
    lemma_lex_equal(a.1, b.1);
}

pub proof fn lemma_comps_order(a: Seq<(int, Seq<char>)>, b: Seq<(int, Seq<char>)>)
    ensures
        comps_order(b, a) == comps_order(a, b).flip(),
        (comps_order(a, b) == Order::Equal) <==> (a == b),
    decreases a.len(),
{
    if a.len() > 0 && b.len() > 0 {
        lemma_comp_order(a[0], b[0]);
        lemma_comps_order(a.drop_first(), b.drop_first());
        if a == b {
            assert(a.drop_first() == b.drop_first());
        }
        if comps_order(a, b) == Order::Equal {
            assert(a =~= seq![a[0]] + a.drop_first());
            assert(b =~= seq![b[0]] + b.drop_first());
        }
    } else if a.len() == 0 && b.len() == 0 {
        assert(a =~= b);
    } else {
        assert(a.len() != b.len());
    }
}

pub proof fn lemma_path_order(a: Seq<char>, b: Seq<char>)
    ensures
        path_order(b, a) == path_order(a, b).flip(),
        (path_order(a, b) == Order::Equal) <==> path_eq(a, b),
{
    lemma_comps_order(components(a), components(b));
}

pub proof fn lemma_comps_trans(a: Seq<(int, Seq<char>)>, b: Seq<(int, Seq<char>)>, c: Seq<(int, Seq<char>)>)
    ensures
        ord_trans(comps_order(a, b), comps_order(b, c), comps_order(a, c)),
    decreases a.len(),
{
    if a.len() > 0 && b.len() > 0 && c.len() > 0 {
        lemma_int_order(a[0].0, b[0].0, c[0].0);
        lemma_lex_ord(a[0].1, b[0].1, c[0].1);
        lemma_tie_trans(
            int_order(a[0].0, b[0].0),
            int_order(b[0].0, c[0].0),
            int_order(a[0].0, c[0].0),
            lex(a[0].1, b[0].1),
            lex(b[0].1, c[0].1),
            lex(a[0].1, c[0].1),
        );
        lemma_comps_trans(a.drop_first(), b.drop_first(), c.drop_first());
    }
}

/// `Path` order is transitive.
pub proof fn lemma_path_trans(a: Seq<char>, b: Seq<char>, c: Seq<char>)
    ensures
        ord_trans(path_order(a, b), path_order(b, c), path_order(a, c)),
        path_order(b, a) == path_order(a, b).flip(),
{
    lemma_comps_trans(components(a), components(b), components(c));
    lemma_path_order(a, b);
}

/// A component: its kind and its text.
pub struct PathComponent {
    pub kind: u8,
    pub text: Vec<char>,
}

pub open spec fn comp_view(c: PathComponent) -> (int, Seq<char>) {
    (c.kind as int, c.text@)
}

pub open spec fn comps_view(cs: Seq<PathComponent>) -> Seq<(int, Seq<char>)> {
    cs.map_values(|c: PathComponent| comp_view(c))
}

fn is_dot(seg: &Vec<char>) -> (res: bool)
    ensures
        res == (seg@ == seq!['.']),
{
    if seg.len() == 1 && seg[0] == '.' {
        assert(seg@ =~= seq!['.']);
        true
    } else {
        false
    }
}

fn is_dot_dot(seg: &Vec<char>) -> (res: bool)
    ensures
        res == (seg@ == seq!['.', '.']),
{
    if seg.len() == 2 && seg[0] == '.' && seg[1] == '.' {
        assert(seg@ =~= seq!['.', '.']);
        true
    } else {
        false
    }
}

proof fn lemma_comps_from_step(segs: Seq<Seq<char>>, i: int)
    requires
        0 <= i < segs.len(),
    ensures
        comps_from(segs, i) == if seg_kept(segs[i], i) {
            seq![(seg_kind(segs[i]), segs[i])] + comps_from(segs, i + 1)
        } else {
            comps_from(segs, i + 1)
        },
{
}

/// `Path::components` of a string path.
pub fn path_components(s: &str) -> (res: Vec<PathComponent>)
    ensures
        comps_view(res@) == components(s@),
{
    let cs = crate::text::chars_of(s);
    let n = cs.len();
    let mut segs: Vec<Vec<char>> = Vec::new();
    let mut cur: Vec<char> = Vec::new();
    let mut i: usize = 0;
    while i < n
        invariant
            i <= n == cs@.len(),
            cs@ == s@,
            seg_fold(s@, i as int) == (segs@.map_values(|v: Vec<char>| v@), cur@),
        decreases n - i,
    {
        let ghost old_segs = segs@;
        if cs[i] == '/' {
            let done = cur;
            segs.push(done);
            cur = Vec::new();
            assert(segs@.map_values(|v: Vec<char>| v@) =~= old_segs.map_values(|v: Vec<char>| v@).push(done@));
        } else {
            cur.push(cs[i]);
        }
        i = i + 1;
    }
    let ghost before = segs@;
    segs.push(cur);
    let ghost sv = segs@.map_values(|v: Vec<char>| v@);
    assert(sv =~= before.map_values(|v: Vec<char>| v@).push(cur@));
    assert(sv == segments(s@));
    let mut out: Vec<PathComponent> = Vec::new();
    let absolute = n > 0 && cs[0] == '/';
    if absolute {
        let mut root: Vec<char> = Vec::new();
        root.push('/');
        out.push(PathComponent { kind: 0, text: root });
        assert(comps_view(out@) =~= seq![(kind_root(), seq!['/'])]);
    }
    let ghost prefix = comps_view(out@);
    let mut k: usize = 0;
    while k < segs.len()
        invariant
            k <= segs@.len(),
            sv == segs@.map_values(|v: Vec<char>| v@),
            comps_view(out@) + comps_from(sv, k as int) == prefix + comps_from(sv, 0),
        decreases segs@.len() - k,
    {
        proof {
            lemma_comps_from_step(sv, k as int);
        }
        let seg = &segs[k];
        let dot = is_dot(seg);
        if seg.len() > 0 && (!dot || k == 0) {
            let kind: u8 = if dot {
                1
            } else if is_dot_dot(seg) {
                2
            } else {
                3
            };
            let ghost before_out = comps_view(out@);
            out.push(PathComponent { kind, text: seg.clone() });
            assert(comps_view(out@) =~= before_out.push((kind as int, seg@)));
            assert(comps_view(out@) + comps_from(sv, k + 1) =~= before_out + (seq![(seg_kind(sv[k as int]), sv[k as int])] + comps_from(sv, k + 1)));
        }
        k = k + 1;
    }
    assert(comps_from(sv, segs@.len() as int) == Seq::<(int, Seq<char>)>::empty());
    assert(comps_view(out@) =~= prefix + comps_from(sv, 0));
    out
}

/// The order of two component lists.
pub fn comps_order_exec(a: &Vec<PathComponent>, b: &Vec<PathComponent>) -> (res: Order)
    ensures
        res == comps_order(comps_view(a@), comps_view(b@)),
{
    let mut i: usize = 0;
    proof {
        assert(comps_view(a@).subrange(0, a@.len() as int) =~= comps_view(a@));
        assert(comps_view(b@).subrange(0, b@.len() as int) =~= comps_view(b@));
    }
    while i < a.len() && i < b.len()
        invariant
            i <= a@.len(),
            i <= b@.len(),
            comps_order(comps_view(a@), comps_view(b@)) == comps_order(
                comps_view(a@).subrange(i as int, a@.len() as int),
                comps_view(b@).subrange(i as int, b@.len() as int),
            ),
        decreases a@.len() - i,
    {
        let ka = a[i].kind;
        let kb = b[i].kind;
        let ghost x = comps_view(a@).subrange(i as int, a@.len() as int);
        let ghost y = comps_view(b@).subrange(i as int, b@.len() as int);
        assert(x[0] == comp_view(a@[i as int]));
        assert(y[0] == comp_view(b@[i as int]));
        let o = if ka < kb {
            Order::Less
        } else if ka > kb {
            Order::Greater
        } else {
            lex_chars(a[i].text.as_slice(), b[i].text.as_slice())
        };
        assert(o == comp_order(x[0], y[0]));
        if o != Order::Equal {
            return o;
        }
        assert(x.drop_first() =~= comps_view(a@).subrange(i + 1, a@.len() as int));
        assert(y.drop_first() =~= comps_view(b@).subrange(i + 1, b@.len() as int));
        i = i + 1;
    }
    proof {
        assert(comps_view(a@).subrange(0, a@.len() as int) =~= comps_view(a@));
    }
    if i == a.len() {
        if i == b.len() {
            Order::Equal
        } else {
            Order::Less
        }
    } else {
        Order::Greater
    }
}

/// The order of two paths (`Path::cmp`).
pub fn path_order_exec(a: &str, b: &str) -> (res: Order)
    ensures
        res == path_order(a@, b@),
{
    let x = path_components(a);
    let y = path_components(b);
    comps_order_exec(&x, &y)
}

/// `Path::join` of a relative name onto a directory.
pub open spec fn join(base: Seq<char>, name: Seq<char>) -> Seq<char> {
    if is_absolute(name) {
        name
    } else if base.len() == 0 {
        name
    } else if base.last() == '/' {
        base + name
    } else {
        base + seq!['/'] + name
    }
}

/// `Path::join`.
pub fn path_join(base: &str, name: &str) -> (res: String)
    ensures
        res@ == join(base@, name@),
{
    let b = crate::text::chars_of(base);
    let n = crate::text::chars_of(name);
    if n.len() > 0 && n[0] == '/' {
        return crate::text::owned(name);
    }
    if b.len() == 0 {
        return crate::text::owned(name);
    }
    if b[b.len() - 1] == '/' {
        crate::text::concat(base, name)
    } else {
        let mut out = crate::text::owned(base);
        push_char(&mut out, '/');
        out.append(name);
        out
    }
}

/// `Path::starts_with`: the components of `base` begin those of `path`.
pub open spec fn path_starts_with(path: Seq<char>, base: Seq<char>) -> bool {
    let p = components(path);
    let b = components(base);
    b.len() <= p.len() && p.subrange(0, b.len() as int) == b
}

pub fn path_starts_with_exec(path: &str, base: &str) -> (res: bool)
    ensures
        res == path_starts_with(path@, base@),
{
    let p = path_components(path);
    let b = path_components(base);
    if b.len() > p.len() {
        return false;
    }
    let mut i: usize = 0;
    while i < b.len()
        invariant
            i <= b@.len() <= p@.len(),
            forall|j: int| 0 <= j < i ==> comps_view(p@)[j] == comps_view(b@)[j],
        decreases b@.len() - i,
    {
        let same_kind = p[i].kind == b[i].kind;
        let o = lex_chars(p[i].text.as_slice(), b[i].text.as_slice());
        proof {
            lemma_lex_equal(p@[i as int].text@, b@[i as int].text@);
        }
        if !same_kind || o != Order::Equal {
            assert(comps_view(p@).subrange(0, b@.len() as int)[i as int] != comps_view(b@)[i as int]);
            return false;
        }
        i = i + 1;
    }
    assert(comps_view(p@).subrange(0, b@.len() as int) =~= comps_view(b@));
    true
}

/// Whether two paths are equal as `Path`s.
pub fn path_eq_exec(a: &str, b: &str) -> (res: bool)
    ensures
        res == path_eq(a@, b@),
{
    let o = path_order_exec(a, b);
    proof {
        lemma_path_order(a@, b@);
    }
    o == Order::Equal
}

} // verus!

verus! {

/// `Path::is_absolute` on Unix: the path starts with `/`.
pub fn is_absolute_str(s: &str) -> (res: bool)
    ensures
        res == is_absolute(s@),
{
    let cs = crate::text::chars_of(s);
    cs.len() > 0 && cs[0] == '/'
}

} // verus!
