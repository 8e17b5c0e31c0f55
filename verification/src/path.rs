//! File-system paths compared the way Unix paths compare: component by component.
//!
//! The components of a path are its root (`/`), a leading current-directory component
//! (`.`), parent-directory components (`..`) and names; empty pieces and inner `.` pieces
//! drop out. Components order by kind (root, current directory, parent directory, name),
//! names by text, and paths by their component lists.

use vstd::prelude::*;

use crate::address::{
    Order, compare_texts, text_less, lemma_text_less_irreflexive, lemma_text_less_asymmetric,
    lemma_text_less_total, lemma_text_less_transitive,
};
use crate::artifact::{normal_parts, cur_dir, parent_dir};
use crate::text::{chars_of, split_on, split_slice, slice_range, strings_view, owned};

verus! {

/// The root component.
pub open spec fn root_dir() -> Seq<char> {
    seq!['/']
}

/// The components of a path.
#[verifier::opaque]
pub open spec fn path_components(s: Seq<char>) -> Seq<Seq<char>> {
    let ps = split_on(s, '/');
    if s.len() > 0 && s[0] == '/' {
        seq![root_dir()] + normal_parts(ps.drop_first())
    } else if ps[0] == cur_dir() {
        seq![cur_dir()] + normal_parts(ps.drop_first())
    } else {
        normal_parts(ps)
    }
}

/// Kind of a component, as a character that orders the kinds.
pub open spec fn component_rank(c: Seq<char>) -> char {
    if c == root_dir() {
        '\u{0}'
    } else if c == cur_dir() {
        '\u{1}'
    } else if c == parent_dir() {
        '\u{2}'
    } else {
        '\u{3}'
    }
}

/// Sort key of a component: its kind, then its text.
pub open spec fn component_key(c: Seq<char>) -> Seq<char> {
    seq![component_rank(c)] + c
}

/// Lexicographic order on component lists.
pub open spec fn components_less(a: Seq<Seq<char>>, b: Seq<Seq<char>>) -> bool
    decreases a.len(),
{
    if a.len() == 0 {
        b.len() > 0
    } else if b.len() == 0 {
        false
    } else if text_less(component_key(a[0]), component_key(b[0])) {
        true
    } else if text_less(component_key(b[0]), component_key(a[0])) {
        false
    } else {
        components_less(a.drop_first(), b.drop_first())
    }
}

/// `a` sorts before `b` as a path.
pub open spec fn path_less(a: Seq<char>, b: Seq<char>) -> bool {
    components_less(path_components(a), path_components(b))
}

/// `a` and `b` name the same path.
pub open spec fn same_path(a: Seq<char>, b: Seq<char>) -> bool {
    path_components(a) == path_components(b)
}

proof fn lemma_key_injective(x: Seq<char>, y: Seq<char>)
    requires
        component_key(x) == component_key(y),
    ensures
        x == y,
{
    assert(x =~= component_key(x).drop_first());
    assert(y =~= component_key(y).drop_first());
}

pub proof fn lemma_components_less_irreflexive(a: Seq<Seq<char>>)
    ensures
        !components_less(a, a),
    decreases a.len(),
{
    if a.len() > 0 {
        lemma_text_less_irreflexive(component_key(a[0]));
        lemma_components_less_irreflexive(a.drop_first());
    }
}

pub proof fn lemma_components_less_asymmetric(a: Seq<Seq<char>>, b: Seq<Seq<char>>)
    ensures
        !(components_less(a, b) && components_less(b, a)),
    decreases a.len(),
{
    if a.len() > 0 && b.len() > 0 {
        lemma_text_less_asymmetric(component_key(a[0]), component_key(b[0]));
        lemma_components_less_asymmetric(a.drop_first(), b.drop_first());
    }
}

pub proof fn lemma_components_less_total(a: Seq<Seq<char>>, b: Seq<Seq<char>>)
    ensures
        a == b || components_less(a, b) || components_less(b, a),
    decreases a.len(),
{
    if a.len() == 0 && b.len() == 0 {
        assert(a =~= b);
    } else if a.len() > 0 && b.len() > 0 {
        let ka = component_key(a[0]);
        let kb = component_key(b[0]);
        lemma_text_less_total(ka, kb);
        if !text_less(ka, kb) && !text_less(kb, ka) {
            lemma_key_injective(a[0], b[0]);
            lemma_components_less_total(a.drop_first(), b.drop_first());
            if a.drop_first() == b.drop_first() {
                assert(a =~= seq![a[0]] + a.drop_first());
                assert(b =~= seq![b[0]] + b.drop_first());
            }
        }
    }
}

pub proof fn lemma_components_less_transitive(a: Seq<Seq<char>>, b: Seq<Seq<char>>, c: Seq<Seq<char>>)
    requires
        components_less(a, b),
        components_less(b, c),
    ensures
        components_less(a, c),
    decreases a.len(),
{
    if a.len() > 0 && b.len() > 0 && c.len() > 0 {
        let ka = component_key(a[0]);
        let kb = component_key(b[0]);
        let kc = component_key(c[0]);
        lemma_text_less_total(ka, kb);
        lemma_text_less_total(kb, kc);
        lemma_text_less_total(ka, kc);
        lemma_text_less_asymmetric(ka, kb);
        lemma_text_less_asymmetric(kb, kc);
        lemma_text_less_asymmetric(ka, kc);
        lemma_text_less_irreflexive(ka);
        lemma_text_less_irreflexive(kb);
        if text_less(ka, kb) && text_less(kb, kc) {
            lemma_text_less_transitive(ka, kb, kc);
        }
        if ka == kb && kb == kc {
            lemma_components_less_transitive(a.drop_first(), b.drop_first(), c.drop_first());
        }
    }
}

/// The components of a path.
pub fn components_of(path: &str) -> (r: Vec<Vec<char>>)
    ensures
        r@.map_values(|c: Vec<char>| c@) == path_components(path@),
{
    reveal(path_components);
    let chars = chars_of(path);
    let parts = split_slice(chars.as_slice(), '/');
    let ghost ps = split_on(path@, '/');
    proof {
        crate::text::lemma_split_on_nonempty(path@, '/');
    }
    assert(parts@.map_values(|p: Vec<char>| p@) == ps);
    assert(parts@.len() == ps.len());
    assert(parts@[0]@ == ps[0]);
    let mut out: Vec<Vec<char>> = Vec::new();
    let mut start: usize = 0;
    let ghost mut head: Seq<Seq<char>> = Seq::empty();
    if chars.len() > 0 && chars[0] == '/' {
        let root = vec!['/'];
        assert(root@ =~= root_dir());
        out.push(root);
        start = 1;
        proof {
            head = seq![root_dir()];
        }
    } else if parts[0].len() == 1 && parts[0][0] == '.' {
        assert(ps[0] =~= cur_dir());
        let dot = vec!['.'];
        assert(dot@ =~= cur_dir());
        out.push(dot);
        start = 1;
        proof {
            head = seq![cur_dir()];
        }
    } else {
        assert(ps[0] != cur_dir()) by {
            if ps[0] == cur_dir() {
                assert(parts@[0]@.len() == 1);
                assert(parts@[0]@[0] == '.');
            }
        }
    }
    assert(out@.map_values(|c: Vec<char>| c@) =~= head);
    let mut i: usize = start;
    assert(ps.subrange(start as int, start as int) =~= Seq::<Seq<char>>::empty());
    while i < parts.len()
        invariant
            start <= i <= ps.len(),
            start <= 1,
            ps.len() >= 1,
            parts@.len() == ps.len(),
            forall|k: int| 0 <= k < ps.len() ==> (#[trigger] parts@[k])@ == ps[k],
            out@.map_values(|c: Vec<char>| c@) == head + normal_parts(ps.subrange(start as int, i as int)),
        decreases ps.len() - i,
    {
        let part = &parts[i];
        assert(part@ == ps[i as int]);
        let ghost sub = ps.subrange(start as int, i + 1);
        assert(sub.drop_last() =~= ps.subrange(start as int, i as int));
        assert(sub.last() == ps[i as int]);
        let is_dot = part.len() == 1 && part[0] == '.';
        assert(is_dot == (part@ == cur_dir())) by {
            if part@ == cur_dir() {
                assert(part@[0] == '.');
            }
            if is_dot {
                assert(part@ =~= cur_dir());
            }
        }
        if part.len() > 0 && !is_dot {
            let copy = slice_range(part.as_slice(), 0, part.len());
            assert(copy@ =~= part@);
            let ghost before = out@.map_values(|c: Vec<char>| c@);
            out.push(copy);
            assert(out@.map_values(|c: Vec<char>| c@) =~= before.push(part@));
            assert(normal_parts(sub) == normal_parts(ps.subrange(start as int, i as int)).push(part@));
            assert(out@.map_values(|c: Vec<char>| c@) =~= head + normal_parts(sub));
        } else {
            assert(out@.map_values(|c: Vec<char>| c@) =~= head + normal_parts(sub));
        }
        i = i + 1;
    }
    if start == 1 {
        assert(ps.subrange(1, ps.len() as int) =~= ps.drop_first());
    } else {
        assert(ps.subrange(0, ps.len() as int) =~= ps);
        assert(head + normal_parts(ps) =~= normal_parts(ps));
    }
    out
}

/// Sort key of a component.
fn component_key_of(c: &Vec<char>) -> (r: Vec<char>)
    ensures
        r@ == component_key(c@),
{
    let rank = if c.len() == 1 && c[0] == '/' {
        '\u{0}'
    } else if c.len() == 1 && c[0] == '.' {
        '\u{1}'
    } else if c.len() == 2 && c[0] == '.' && c[1] == '.' {
        '\u{2}'
    } else {
        '\u{3}'
    };
    assert(rank == component_rank(c@)) by {
        if c@ == root_dir() {
            assert(c@[0] == '/');
        } else if c@ == cur_dir() {
            assert(c@[0] == '.');
        } else if c@ == parent_dir() {
            assert(c@[0] == '.' && c@[1] == '.');
        }
        if c.len() == 1 && c[0] == '/' {
            assert(c@ =~= root_dir());
        }
        if c.len() == 1 && c[0] == '.' {
            assert(c@ =~= cur_dir());
        }
        if c.len() == 2 && c[0] == '.' && c[1] == '.' {
            assert(c@ =~= parent_dir());
        }
    }
    let mut key: Vec<char> = Vec::new();
    key.push(rank);
    let mut i: usize = 0;
    while i < c.len()
        invariant
            i <= c@.len(),
            key@ == seq![rank] + c@.subrange(0, i as int),
        decreases c@.len() - i,
    {
        key.push(c[i]);
        i = i + 1;
        assert(key@ =~= seq![rank] + c@.subrange(0, i as int));
    }
    assert(c@.subrange(0, c@.len() as int) =~= c@);
    key
}

/// Views of component lists.
pub open spec fn parts_view(v: Seq<Vec<char>>) -> Seq<Seq<char>> {
    v.map_values(|c: Vec<char>| c@)
}

/// Compare two component lists in the order of `components_less`.
pub fn compare_components(a: &Vec<Vec<char>>, b: &Vec<Vec<char>>) -> (r: Order)
    ensures
        r == Order::Less <==> components_less(parts_view(a@), parts_view(b@)),
        r == Order::Equal <==> parts_view(a@) == parts_view(b@),
        r == Order::Greater <==> components_less(parts_view(b@), parts_view(a@)),
{
    let ghost sa = parts_view(a@);
    let ghost sb = parts_view(b@);
    let mut i: usize = 0;
    assert(sa.skip(0) =~= sa);
    assert(sb.skip(0) =~= sb);
    while i < a.len() && i < b.len()
        invariant
            i <= a@.len(),
            i <= b@.len(),
            sa == parts_view(a@),
            sb == parts_view(b@),
            sa.subrange(0, i as int) == sb.subrange(0, i as int),
            components_less(sa, sb) == components_less(sa.skip(i as int), sb.skip(i as int)),
            components_less(sb, sa) == components_less(sb.skip(i as int), sa.skip(i as int)),
        decreases a@.len() - i,
    {
        let ka = component_key_of(&a[i]);
        let kb = component_key_of(&b[i]);
        assert(sa.skip(i as int)[0] == sa[i as int]);
        assert(sb.skip(i as int)[0] == sb[i as int]);
        assert(sa.skip(i as int).drop_first() =~= sa.skip(i + 1));
        assert(sb.skip(i as int).drop_first() =~= sb.skip(i + 1));
        match compare_texts(ka.as_slice(), kb.as_slice()) {
            Order::Less => {
                proof {
                    lemma_text_less_asymmetric(ka@, kb@);
                    lemma_components_less_asymmetric(sa, sb);
                    if sa == sb {
                        lemma_components_less_irreflexive(sa);
                    }
                }
                return Order::Less;
            },
            Order::Greater => {
                proof {
                    lemma_text_less_asymmetric(ka@, kb@);
                    lemma_components_less_asymmetric(sa, sb);
                    if sa == sb {
                        lemma_components_less_irreflexive(sa);
                    }
                }
                return Order::Greater;
            },
            Order::Equal => {
                proof {
                    lemma_key_injective(sa[i as int], sb[i as int]);
                    lemma_text_less_irreflexive(ka@);
                }
                assert(sa.subrange(0, i + 1) =~= sa.subrange(0, i as int).push(sa[i as int]));
                assert(sb.subrange(0, i + 1) =~= sb.subrange(0, i as int).push(sb[i as int]));
            },
        }
        i = i + 1;
    }
    proof {
        assert(sa.subrange(0, i as int) == sb.subrange(0, i as int));
        if a.len() == b.len() {
            assert(sa =~= sa.subrange(0, i as int));
            assert(sb =~= sb.subrange(0, i as int));
            lemma_components_less_irreflexive(sa);
        } else {
            assert(sa.skip(i as int).len() == 0 || sb.skip(i as int).len() == 0);
            if sa == sb {
                assert(sa.len() == sb.len());
            }
        }
    }
    if a.len() == b.len() {
        Order::Equal
    } else if a.len() < b.len() {
        Order::Less
    } else {
        Order::Greater
    }
}

/// Whether two paths name the same path.
pub fn paths_equal(a: &str, b: &str) -> (r: bool)
    ensures
        r == same_path(a@, b@),
{
    let ca = components_of(a);
    let cb = components_of(b);
    match compare_components(&ca, &cb) {
        Order::Equal => true,
        _ => false,
    }
}

/// Strictly increasing in path order.
pub open spec fn path_sorted(s: Seq<Seq<char>>) -> bool {
    forall|i: int, j: int| 0 <= i < j < s.len() ==> path_less(#[trigger] s[i], #[trigger] s[j])
}

/// No path before `ps[j]` names the same path.
pub open spec fn first_of_path(ps: Seq<Seq<char>>, j: int) -> bool {
    forall|k: int| 0 <= k < j ==> !same_path(#[trigger] ps[k], ps[j])
}

/// Some path of `r` names the same path as `x`.
pub open spec fn names_path(r: Seq<Seq<char>>, x: Seq<char>) -> bool {
    exists|i: int| 0 <= i < r.len() && same_path(r[i], x)
}

/// `x` is the first path of `ps` that names its path.
pub open spec fn first_naming(ps: Seq<Seq<char>>, x: Seq<char>) -> bool {
    exists|j: int| 0 <= j < ps.len() && ps[j] == x && first_of_path(ps, j)
}

/// `r` holds, in path order, the first of each group of paths in `ps` that name one path.
pub open spec fn sorted_unique_paths(ps: Seq<Seq<char>>, r: Seq<Seq<char>>) -> bool {
    &&& path_sorted(r)
    &&& forall|i: int| 0 <= i < r.len() ==> #[trigger] first_naming(ps, r[i])
    &&& forall|j: int| 0 <= j < ps.len() ==> #[trigger] names_path(r, ps[j])
}

/// A path that an earlier one already names keeps the listing as it is.
proof fn lemma_unique_paths_skip(ps: Seq<Seq<char>>, j: int, r0: Seq<Seq<char>>, p: int)
    requires
        0 <= j < ps.len(),
        sorted_unique_paths(ps.take(j), r0),
        0 <= p < r0.len(),
        same_path(r0[p], ps[j]),
    ensures
        sorted_unique_paths(ps.take(j + 1), r0),
{
    let t0 = ps.take(j);
    let t1 = ps.take(j + 1);
    assert(t1 =~= t0.push(ps[j]));
    assert forall|i: int| 0 <= i < r0.len() implies #[trigger] first_naming(t1, r0[i]) by {
        assert(first_naming(t0, r0[i]));
        let k = choose|k: int| 0 <= k < t0.len() && t0[k] == r0[i] && first_of_path(t0, k);
        assert(t1[k] == t0[k]);
        assert forall|m: int| 0 <= m < k implies !same_path(#[trigger] t1[m], t1[k]) by {
            assert(t1[m] == t0[m]);
            assert(!same_path(t0[m], t0[k]));
        }
        assert(first_of_path(t1, k));
    }
    assert forall|k: int| 0 <= k < t1.len() implies #[trigger] names_path(r0, t1[k]) by {
        if k < t0.len() {
            assert(t1[k] == t0[k]);
            assert(names_path(r0, t0[k]));
        } else {
            assert(t1[k] == ps[j]);
            assert(same_path(r0[p], t1[k]));
        }
    }
}

/// A path that no earlier one names goes in at its place in path order.
proof fn lemma_unique_paths_insert(ps: Seq<Seq<char>>, j: int, r0: Seq<Seq<char>>, p: int)
    requires
        0 <= j < ps.len(),
        sorted_unique_paths(ps.take(j), r0),
        0 <= p <= r0.len(),
        forall|i: int| 0 <= i < p ==> components_less(path_components(#[trigger] r0[i]), path_components(ps[j])),
        p < r0.len() ==> components_less(path_components(ps[j]), path_components(r0[p])),
    ensures
        sorted_unique_paths(ps.take(j + 1), r0.insert(p, ps[j])),
{
    let t0 = ps.take(j);
    let t1 = ps.take(j + 1);
    let cv = path_components(ps[j]);
    let n = r0.insert(p, ps[j]);
    assert(t1 =~= t0.push(ps[j]));
    assert forall|i: int| 0 <= i < r0.len() implies !same_path(#[trigger] r0[i], ps[j]) by {
        if i < p {
            assert(components_less(path_components(r0[i]), cv));
            lemma_components_less_irreflexive(cv);
        } else {
            if i > p {
                assert(path_less(r0[p], r0[i]));
                lemma_components_less_transitive(cv, path_components(r0[p]), path_components(r0[i]));
            }
            lemma_components_less_irreflexive(cv);
        }
    }
    assert(first_of_path(t1, j)) by {
        assert forall|k: int| 0 <= k < j implies !same_path(#[trigger] t1[k], t1[j]) by {
            assert(t1[k] == t0[k]);
            assert(names_path(r0, t0[k]));
            let i = choose|i: int| 0 <= i < r0.len() && same_path(r0[i], t0[k]);
            assert(!same_path(r0[i], ps[j]));
        }
    }
    assert forall|a: int, b: int| 0 <= a < b < n.len() implies path_less(#[trigger] n[a], #[trigger] n[b]) by {
        if b < p {
            assert(n[a] == r0[a] && n[b] == r0[b]);
        } else if b == p {
            assert(n[a] == r0[a]);
        } else if a < p {
            assert(n[a] == r0[a] && n[b] == r0[b - 1]);
            if b - 1 > p {
                assert(path_less(r0[p], r0[b - 1]));
                lemma_components_less_transitive(cv, path_components(r0[p]), path_components(r0[b - 1]));
            }
            lemma_components_less_transitive(path_components(r0[a]), cv, path_components(r0[b - 1]));
        } else if a == p {
            assert(n[b] == r0[b - 1]);
            if b - 1 > p {
                assert(path_less(r0[p], r0[b - 1]));
                lemma_components_less_transitive(cv, path_components(r0[p]), path_components(r0[b - 1]));
            }
        } else {
            assert(n[a] == r0[a - 1] && n[b] == r0[b - 1]);
        }
    }
    assert forall|i: int| 0 <= i < n.len() implies #[trigger] first_naming(t1, n[i]) by {
        if i == p {
            assert(n[i] == t1[j]);
        } else {
            let i0 = if i < p { i } else { i - 1 };
            assert(n[i] == r0[i0]);
            assert(first_naming(t0, r0[i0]));
            let k = choose|k: int| 0 <= k < t0.len() && t0[k] == r0[i0] && first_of_path(t0, k);
            assert(t1[k] == t0[k]);
            assert forall|m: int| 0 <= m < k implies !same_path(#[trigger] t1[m], t1[k]) by {
                assert(t1[m] == t0[m]);
                assert(!same_path(t0[m], t0[k]));
            }
            assert(first_of_path(t1, k));
        }
    }
    assert forall|k: int| 0 <= k < t1.len() implies #[trigger] names_path(n, t1[k]) by {
        if k < t0.len() {
            assert(t1[k] == t0[k]);
            assert(names_path(r0, t0[k]));
            let i = choose|i: int| 0 <= i < r0.len() && same_path(r0[i], t0[k]);
            if i < p {
                assert(n[i] == r0[i]);
            } else {
                assert(n[i + 1] == r0[i]);
            }
        } else {
            assert(n[p] == t1[k]);
        }
    }
}

/// The paths in path order, each path once: the first text that names it.
pub fn sort_unique_paths(paths: &[String]) -> (r: Vec<String>)
    ensures
        sorted_unique_paths(strings_view(paths@), strings_view(r@)),
{
    let ghost ps = strings_view(paths@);
    let mut out: Vec<String> = Vec::new();
    let mut keys: Vec<Vec<Vec<char>>> = Vec::new();
    let mut j: usize = 0;
    assert(ps.take(0) =~= Seq::<Seq<char>>::empty());
    while j < paths.len()
        invariant
            j <= ps.len(),
            ps == strings_view(paths@),
            keys@.len() == out@.len(),
            forall|i: int| 0 <= i < keys@.len() ==> parts_view(#[trigger] keys@[i]@) == path_components(out@[i]@),
            sorted_unique_paths(ps.take(j as int), strings_view(out@)),
        decreases ps.len() - j,
    {
        let ghost r0 = strings_view(out@);
        let text = paths[j].as_str();
        assert(text@ == ps[j as int]);
        let c = components_of(text);
        let ghost cv = path_components(text@);
        let mut p: usize = 0;
        while p < keys.len() && matches!(compare_components(&keys[p], &c), Order::Less)
            invariant
                p <= keys@.len(),
                keys@.len() == out@.len(),
                r0 == strings_view(out@),
                cv == parts_view(c@),
                forall|i: int| 0 <= i < keys@.len() ==> parts_view(#[trigger] keys@[i]@) == path_components(out@[i]@),
                forall|i: int| 0 <= i < p ==> components_less(path_components(#[trigger] r0[i]), cv),
            decreases keys@.len() - p,
        {
            assert(r0[p as int] == out@[p as int]@);
            p = p + 1;
        }
        proof {
            if p < keys@.len() {
                assert(r0[p as int] == out@[p as int]@);
            }
        }
        let found = p < keys.len() && matches!(compare_components(&keys[p], &c), Order::Equal);
        if found {
            proof {
                lemma_unique_paths_skip(ps, j as int, r0, p as int);
            }
        } else {
            proof {
                if p < keys@.len() {
                    lemma_components_less_total(path_components(r0[p as int]), cv);
                }
                lemma_unique_paths_insert(ps, j as int, r0, p as int);
            }
            let copy = owned(text);
            let ghost keys0 = keys@;
            let ghost out0 = out@;
            out.insert(p, copy);
            keys.insert(p, c);
            proof {
                assert(strings_view(out@) =~= r0.insert(p as int, ps[j as int]));
                assert forall|i: int| 0 <= i < keys@.len() implies parts_view(#[trigger] keys@[i]@) == path_components(out@[i]@) by {
                    if i > p {
                        assert(keys@[i] == keys0[i - 1] && out@[i] == out0[i - 1]);
                    }
                }
            }
        }
        j = j + 1;
    }
    assert(ps.take(j as int) =~= ps);
    out
}

} // verus!
