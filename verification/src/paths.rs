//! Paths as text.
//!
//! A path is a string of components separated by `/`. Empty components and
//! `.` components are ignored, except a `.` that starts a relative path; a
//! leading `/` makes the path absolute, and an absolute path starts with the
//! root component, written `/` here. Two paths are the same path when they
//! have the same components (as `std::path::Path` compares them).
use vstd::prelude::*;
use crate::text::chars_of;
use crate::text::string_of;

verus! {

/// The component that stands for the root of an absolute path.
pub open spec fn root_component() -> Seq<char> {
    seq!['/']
}

/// Whether a `/`-free piece of a path counts as a component.
pub open spec fn counts(seg: Seq<char>) -> bool {
    seg.len() > 0 && seg != seq!['.']
}

/// Reading `p` left to right: the components completed so far and the
/// piece after the last `/`.
pub open spec fn scan(p: Seq<char>) -> (Seq<Seq<char>>, Seq<char>)
    decreases p.len(),
{
    if p.len() == 0 {
        (seq![], seq![])
    } else {
        let (done, cur) = scan(p.drop_last());
        if p.last() == '/' {
            (if counts(cur) { done.push(cur) } else { done }, seq![])
        } else {
            (done, cur.push(p.last()))
        }
    }
}

/// The components of `p` below its root.
pub open spec fn plain_components(p: Seq<char>) -> Seq<Seq<char>> {
    let (done, cur) = scan(p);
    if counts(cur) {
        done.push(cur)
    } else {
        done
    }
}

/// Whether `p` starts at the root.
pub open spec fn is_absolute(p: Seq<char>) -> bool {
    p.len() > 0 && p[0] == '/'
}

/// Whether the relative path `p` starts with a `.` component (`.` alone or
/// followed by `/`).
pub open spec fn starts_at_cur_dir(p: Seq<char>) -> bool {
    p.len() > 0 && p[0] == '.' && (p.len() == 1 || p[1] == '/')
}

/// The component that stands for a leading `.`.
pub open spec fn cur_dir_component() -> Seq<char> {
    seq!['.']
}

/// The components of `p`, the root first for an absolute path and a `.`
/// first for a relative path that starts with one.
pub open spec fn components(p: Seq<char>) -> Seq<Seq<char>> {
    if is_absolute(p) {
        seq![root_component()] + plain_components(p)
    } else if starts_at_cur_dir(p) {
        seq![cur_dir_component()] + plain_components(p)
    } else {
        plain_components(p)
    }
}

/// Components written out with `/` between them.
pub open spec fn join_with_slash(cs: Seq<Seq<char>>) -> Seq<char>
    decreases cs.len(),
{
    if cs.len() == 0 {
        seq![]
    } else if cs.len() == 1 {
        cs[0]
    } else {
        join_with_slash(cs.drop_last()) + seq!['/'] + cs.last()
    }
}

/// The path text of a list of components.
pub open spec fn render(cs: Seq<Seq<char>>) -> Seq<char> {
    if cs.len() > 0 && cs[0] == root_component() {
        seq!['/'] + join_with_slash(cs.drop_first())
    } else {
        join_with_slash(cs)
    }
}

/// `b` appended to `a` (what `Path::join` gives): an absolute `b` replaces
/// `a`; otherwise a `/` goes between them unless `a` is empty or already
/// ends with one.
pub open spec fn joined(a: Seq<char>, b: Seq<char>) -> Seq<char> {
    if is_absolute(b) {
        b
    } else if a.len() == 0 || a.last() == '/' {
        a + b
    } else {
        a + seq!['/'] + b
    }
}

/// What is left of `p`'s components after those of `base`, when `base`'s
/// components begin `p`'s.
pub open spec fn strip_prefix(p: Seq<char>, base: Seq<char>) -> Option<Seq<Seq<char>>> {
    let pc = components(p);
    let bc = components(base);
    if bc.len() <= pc.len() && pc.take(bc.len() as int) == bc {
        Some(pc.skip(bc.len() as int))
    } else {
        None
    }
}

/// The components of `p`'s parent: all but the last, when the last is
/// not the root.
pub open spec fn parent_components(p: Seq<char>) -> Option<Seq<Seq<char>>> {
    let cs = components(p);
    if cs.len() > 0 && cs.last() != root_component() {
        Some(cs.drop_last())
    } else {
        None
    }
}

/// The last component of `p`, unless it is the root, `.` or `..`.
pub open spec fn file_name(p: Seq<char>) -> Option<Seq<char>> {
    let cs = components(p);
    if cs.len() > 0 && cs.last() != root_component() && cs.last() != cur_dir_component()
        && cs.last() != seq!['.', '.'] {
        Some(cs.last())
    } else {
        None
    }
}

proof fn lemma_scan_counts(p: Seq<char>)
    ensures
        forall|i: int| 0 <= i < scan(p).0.len() ==> counts(#[trigger] scan(p).0[i]),
    decreases p.len(),
{
    if p.len() > 0 {
        lemma_scan_counts(p.drop_last());
        let (done, cur) = scan(p.drop_last());
        if p.last() == '/' && counts(cur) {
            assert forall|i: int| 0 <= i < done.push(cur).len() implies counts(
                #[trigger] done.push(cur)[i],
            ) by {
                if i < done.len() {
                    assert(done.push(cur)[i] == done[i]);
                }
            }
        }
    }
}

/// Every component of a path is non-empty.
pub proof fn lemma_components_nonempty(p: Seq<char>)
    ensures
        forall|i: int| 0 <= i < components(p).len() ==> (#[trigger] components(p)[i]).len() > 0,
{
    lemma_scan_counts(p);
    let (done, cur) = scan(p);
    let pc = plain_components(p);
    assert forall|i: int| 0 <= i < pc.len() implies (#[trigger] pc[i]).len() > 0 by {
        if i < done.len() {
            assert(counts(done[i]));
        }
    }
    if is_absolute(p) || starts_at_cur_dir(p) {
        let cs = components(p);
        assert forall|i: int| 0 <= i < cs.len() implies (#[trigger] cs[i]).len() > 0 by {
            if i > 0 {
                assert(cs[i] == pc[i - 1]);
            }
        }
    }
}

/// Non-empty components written out give non-empty text.
pub proof fn lemma_render_nonempty(cs: Seq<Seq<char>>)
    requires
        cs.len() > 0,
        forall|i: int| 0 <= i < cs.len() ==> (#[trigger] cs[i]).len() > 0,
    ensures
        render(cs).len() > 0,
{
    if !(cs[0] == root_component()) {
        if cs.len() == 1 {
            assert(join_with_slash(cs) == cs[0]);
        } else {
            let j = join_with_slash(cs.drop_last()) + seq!['/'] + cs.last();
            assert(j.len() > 0);
        }
    }
}

/// Whether `s` holds no `/`.
pub open spec fn slash_free(s: Seq<char>) -> bool {
    forall|i: int| 0 <= i < s.len() ==> s[i] != '/'
}

proof fn lemma_scan_slash_free(p: Seq<char>)
    ensures
        forall|i: int| 0 <= i < scan(p).0.len() ==> slash_free(#[trigger] scan(p).0[i]),
        slash_free(scan(p).1),
    decreases p.len(),
{
    if p.len() > 0 {
        lemma_scan_slash_free(p.drop_last());
        let (done, cur) = scan(p.drop_last());
        if p.last() == '/' {
            if counts(cur) {
                assert forall|i: int| 0 <= i < done.push(cur).len() implies slash_free(
                    #[trigger] done.push(cur)[i],
                ) by {
                    if i < done.len() {
                        assert(done.push(cur)[i] == done[i]);
                    }
                }
            }
        } else {
            assert forall|i: int| 0 <= i < cur.push(p.last()).len() implies cur.push(p.last())[i]
                != '/' by {
                if i < cur.len() {
                    assert(cur.push(p.last())[i] == cur[i]);
                }
            }
        }
    }
}

/// Reading on after a `/`: what follows is read as a path of its own.
proof fn lemma_scan_append(z: Seq<char>, y: Seq<char>)
    requires
        scan(z).1 == Seq::<char>::empty(),
    ensures
        scan(z + y) == (scan(z).0 + scan(y).0, scan(y).1),
    decreases y.len(),
{
    if y.len() == 0 {
        assert(z + y =~= z);
        assert(scan(z).0 + scan(y).0 =~= scan(z).0);
    } else {
        assert((z + y).drop_last() =~= z + y.drop_last());
        assert((z + y).last() == y.last());
        lemma_scan_append(z, y.drop_last());
        let (done, cur) = scan(y.drop_last());
        if y.last() == '/' && counts(cur) {
            assert((scan(z).0 + done).push(cur) =~= scan(z).0 + done.push(cur));
        }
    }
}

proof fn lemma_scan_piece(seg: Seq<char>)
    requires
        slash_free(seg),
    ensures
        scan(seg) == (Seq::<Seq<char>>::empty(), seg),
    decreases seg.len(),
{
    if seg.len() > 0 {
        lemma_scan_piece(seg.drop_last());
        assert(seg.drop_last().push(seg.last()) =~= seg);
    }
}

/// A path read up to a `/`: the components so far, and nothing after.
proof fn lemma_scan_slash(x: Seq<char>)
    ensures
        scan(x + seq!['/']) == (plain_components(x), Seq::<char>::empty()),
{
    assert((x + seq!['/']).drop_last() =~= x);
}

proof fn lemma_join_starts(cs: Seq<Seq<char>>)
    requires
        cs.len() > 0,
    ensures
        join_with_slash(cs).len() >= cs[0].len(),
        join_with_slash(cs).take(cs[0].len() as int) == cs[0],
    decreases cs.len(),
{
    if cs.len() > 1 {
        lemma_join_starts(cs.drop_last());
        let j = join_with_slash(cs.drop_last());
        assert((j + seq!['/'] + cs.last()).take(cs[0].len() as int) =~= j.take(cs[0].len() as int));
    }
}

proof fn lemma_join_prepend(a: Seq<char>, rest: Seq<Seq<char>>)
    requires
        rest.len() > 0,
    ensures
        join_with_slash(seq![a] + rest) == a + seq!['/'] + join_with_slash(rest),
    decreases rest.len(),
{
    let cs = seq![a] + rest;
    assert(cs.len() >= 2);
    assert(cs.drop_last() =~= seq![a] + rest.drop_last());
    assert(cs.last() == rest.last());
    assert(join_with_slash(cs) == join_with_slash(cs.drop_last()) + seq!['/'] + cs.last());
    if rest.len() == 1 {
        assert(seq![a] + rest.drop_last() =~= seq![a]);
        assert(join_with_slash(seq![a]) == a);
        assert(join_with_slash(rest) == rest[0]);
        assert(rest.last() == rest[0]);
    } else {
        lemma_join_prepend(a, rest.drop_last());
        let j = join_with_slash(rest.drop_last());
        assert(join_with_slash(rest) == j + seq!['/'] + rest.last());
        assert((a + seq!['/'] + j) + seq!['/'] + rest.last() =~= a + seq!['/'] + (j + seq!['/']
            + rest.last()));
    }
}

/// Plain components written out with `/` read back as themselves.
proof fn lemma_plain_join(cs: Seq<Seq<char>>)
    requires
        forall|i: int| 0 <= i < cs.len() ==> counts(#[trigger] cs[i]) && slash_free(cs[i]),
    ensures
        plain_components(join_with_slash(cs)) == cs,
    decreases cs.len(),
{
    if cs.len() == 1 {
        lemma_scan_piece(cs[0]);
        assert(seq![cs[0]] =~= cs);
    } else if cs.len() > 1 {
        let init = cs.drop_last();
        let j = join_with_slash(init);
        let l = cs.last();
        lemma_plain_join(init);
        lemma_scan_slash(j);
        lemma_scan_piece(l);
        lemma_scan_append(j + seq!['/'], l);
        assert(j + seq!['/'] + l == (j + seq!['/']) + l);
        assert(init + Seq::<Seq<char>>::empty() =~= init);
        assert(init.push(l) =~= cs);
    }
}

/// Whether `cs` are the components of a path: each a plain component,
/// except that the first may be the root or a leading `.`.
pub open spec fn well_formed(cs: Seq<Seq<char>>) -> bool {
    forall|i: int|
        0 <= i < cs.len() ==> (counts(#[trigger] cs[i]) && slash_free(cs[i])) || (i == 0 && (
        cs[i] == root_component() || cs[i] == cur_dir_component()))
}

/// Components written out read back as themselves.
pub proof fn lemma_components_render(cs: Seq<Seq<char>>)
    requires
        well_formed(cs),
    ensures
        components(render(cs)) == cs,
{
    if cs.len() == 0 {
        assert(render(cs) =~= Seq::<char>::empty());
        assert(components(render(cs)) =~= cs);
    } else if cs[0] == root_component() {
        let rest = cs.drop_first();
        assert forall|i: int| 0 <= i < rest.len() implies counts(#[trigger] rest[i]) && slash_free(
            rest[i],
        ) by {
            assert(rest[i] == cs[i + 1]);
        }
        lemma_plain_join(rest);
        let j = join_with_slash(rest);
        lemma_scan_slash(Seq::<char>::empty());
        assert(Seq::<char>::empty() + seq!['/'] =~= seq!['/']);
        assert(plain_components(Seq::<char>::empty()) =~= Seq::<Seq<char>>::empty());
        lemma_scan_append(seq!['/'], j);
        assert(seq![root_component()] + rest =~= cs);
        assert(Seq::<Seq<char>>::empty() + scan(j).0 =~= scan(j).0);
    } else if cs[0] == cur_dir_component() {
        let rest = cs.drop_first();
        if rest.len() == 0 {
            assert(join_with_slash(cs) == cs[0]);
            assert(slash_free(seq!['.']));
            lemma_scan_piece(seq!['.']);
            assert(components(render(cs)) =~= cs);
        } else {
            assert forall|i: int| 0 <= i < rest.len() implies counts(#[trigger] rest[i])
                && slash_free(rest[i]) by {
                assert(rest[i] == cs[i + 1]);
            }
            assert(cs =~= seq![cur_dir_component()] + rest);
            lemma_join_prepend(cur_dir_component(), rest);
            let j = join_with_slash(rest);
            lemma_plain_join(rest);
            lemma_scan_slash(seq!['.']);
            assert(slash_free(seq!['.']));
            lemma_scan_piece(seq!['.']);
            assert(plain_components(seq!['.']) =~= Seq::<Seq<char>>::empty());
            lemma_scan_append(seq!['.'] + seq!['/'], j);
            assert(Seq::<Seq<char>>::empty() + scan(j).0 =~= scan(j).0);
            assert(render(cs) == seq!['.'] + seq!['/'] + j);
            assert(render(cs)[0] == '.' && render(cs)[1] == '/');
        }
    } else {
        lemma_plain_join(cs);
        lemma_join_starts(cs);
        let r = join_with_slash(cs);
        assert(r[0] == cs[0][0]);
        if cs[0][0] == '.' {
            assert(cs[0].len() >= 2) by {
                if cs[0].len() == 1 {
                    assert(cs[0] =~= seq!['.']);
                }
            }
            assert(r[1] == cs[0][1]);
        }
    }
}

/// The components of a path are well formed.
pub proof fn lemma_components_well_formed(p: Seq<char>)
    ensures
        well_formed(components(p)),
{
    lemma_scan_counts(p);
    lemma_scan_slash_free(p);
    let (done, cur) = scan(p);
    let pc = plain_components(p);
    assert forall|i: int| 0 <= i < pc.len() implies counts(#[trigger] pc[i]) && slash_free(
        pc[i],
    ) by {
        if i < done.len() {
            assert(counts(done[i]) && slash_free(done[i]));
        }
    }
    let cs = components(p);
    if is_absolute(p) || starts_at_cur_dir(p) {
        assert forall|i: int| 0 <= i < cs.len() implies (counts(#[trigger] cs[i]) && slash_free(
            cs[i],
        )) || (i == 0 && (cs[i] == root_component() || cs[i] == cur_dir_component())) by {
            if i > 0 {
                assert(cs[i] == pc[i - 1]);
            }
        }
    }
}

proof fn lemma_first_piece(p: Seq<char>)
    requires
        p.len() > 0,
        p[0] != '/',
    ensures
        scan(p).0.len() > 0 || scan(p).1 == p || (p.len() >= 2 && p[0] == '.' && p[1] == '/'),
    decreases p.len(),
{
    let q = p.drop_last();
    if p.len() == 1 {
        assert(q =~= Seq::<char>::empty());
        assert(scan(q) == (Seq::<Seq<char>>::empty(), Seq::<char>::empty()));
        assert(p.last() == p[0]);
        assert(Seq::<char>::empty().push(p.last()) =~= p);
    } else {
        assert(q[0] == p[0]);
        lemma_first_piece(q);
        let (done, cur) = scan(q);
        if q.len() >= 2 {
            assert(q[1] == p[1]);
        }
        if done.len() > 0 {
            if p.last() == '/' && counts(cur) {
                assert(done.push(cur).len() > 0);
            }
        } else if q.len() >= 2 && q[0] == '.' && q[1] == '/' {
        } else {
            assert(cur == q);
            if p.last() == '/' {
                if q == seq!['.'] {
                    assert(p[1] == '/');
                    assert(p[0] == '.');
                } else {
                    assert(counts(q));
                    assert(done.push(cur).len() > 0);
                }
            } else {
                assert(q.push(p.last()) =~= p);
            }
        }
    }
}

/// A non-empty path has components.
pub proof fn lemma_nonempty_path_has_components(p: Seq<char>)
    requires
        p.len() > 0,
    ensures
        components(p).len() > 0,
{
    if !is_absolute(p) && !starts_at_cur_dir(p) {
        lemma_first_piece(p);
        let (done, cur) = scan(p);
        if done.len() == 0 && cur == p {
            assert(p != seq!['.']) by {
                if p == seq!['.'] {
                    assert(p.len() == 1 && p[0] == '.');
                }
            }
            assert(counts(cur));
        }
    }
}

/// Joining a relative path that does not start with `.` appends its
/// components to those of the base.
pub proof fn lemma_components_joined(a: Seq<char>, b: Seq<char>)
    requires
        !is_absolute(b),
        !starts_at_cur_dir(b),
    ensures
        components(joined(a, b)) == components(a) + components(b),
{
    if a.len() == 0 {
        assert(a + b =~= b);
        assert(components(a) =~= Seq::<Seq<char>>::empty());
        assert(components(a) + components(b) =~= components(b));
    } else if a.last() == '/' {
        assert(a.drop_last().push('/') =~= a);
        lemma_scan_slash(a.drop_last());
        lemma_scan_append(a, b);
        let ab = a + b;
        assert(ab[0] == a[0]);
        if a.len() >= 2 {
            assert(ab[1] == a[1]);
        }
        assert(plain_components(a) =~= scan(a).0);
        assert(plain_components(ab) =~= plain_components(a) + plain_components(b));
        assert(components(ab) =~= components(a) + components(b));
    } else {
        lemma_scan_slash(a);
        lemma_scan_append(a + seq!['/'], b);
        let ab = a + seq!['/'] + b;
        assert(ab == (a + seq!['/']) + b);
        assert(ab[0] == a[0]);
        assert(ab.len() >= 2);
        if a.len() >= 2 {
            assert(ab[1] == a[1]);
        } else {
            assert(ab[1] == '/');
        }
        assert(plain_components(ab) =~= plain_components(a) + plain_components(b));
        assert(components(ab) =~= components(a) + components(b));
    }
}

/// The views of a list of character vectors.
pub open spec fn views(v: Seq<Vec<char>>) -> Seq<Seq<char>> {
    v.map_values(|x: Vec<char>| x@)
}

fn counts_exec(seg: &Vec<char>) -> (b: bool)
    ensures
        b == counts(seg@),
{
    if seg.len() == 0 {
        false
    } else if seg.len() == 1 && seg[0] == '.' {
        assert(seg@ =~= seq!['.']);
        false
    } else {
        assert(seg@ != seq!['.'] ) by {
            if seg@ == seq!['.'] {
                assert(seg@.len() == 1 && seg@[0] == '.');
            }
        }
        true
    }
}

/// The components of the path `p`.
pub fn path_components(p: &str) -> (r: Vec<Vec<char>>)
    ensures
        views(r@) == components(p@),
{
    let v = chars_of(p);
    let n = v.len();
    let mut done: Vec<Vec<char>> = Vec::new();
    let mut cur: Vec<char> = Vec::new();
    let mut i: usize = 0;
    while i < n
        invariant
            n == v@.len(),
            i <= n,
            (views(done@), cur@) == scan(v@.take(i as int)),
        decreases n - i,
    {
        let c = v[i];
        assert(v@.take(i + 1).drop_last() =~= v@.take(i as int));
        assert(v@.take(i + 1).last() == c);
        if c == '/' {
            if counts_exec(&cur) {
                let ghost old_done = done@;
                done.push(cur);
                assert(views(done@) =~= views(old_done).push(cur@));
            }
            cur = Vec::new();
            assert(cur@ =~= seq![]);
        } else {
            cur.push(c);
        }
        i += 1;
    }
    assert(v@.take(n as int) =~= v@);
    if counts_exec(&cur) {
        let ghost old_done = done@;
        done.push(cur);
        assert(views(done@) =~= views(old_done).push(cur@));
    }
    if n > 0 && v[0] == '/' {
        let mut root: Vec<char> = Vec::new();
        root.push('/');
        assert(root@ =~= root_component());
        let mut r: Vec<Vec<char>> = Vec::new();
        r.push(root);
        let ghost first = r@;
        let ghost rest = done@;
        assert(views(first) =~= seq![root_component()]);
        r.append(&mut done);
        assert(r@ =~= first + rest);
        assert(views(r@) =~= views(first) + views(rest));
        r
    } else if n > 0 && v[0] == '.' && (n == 1 || v[1] == '/') {
        let mut dot: Vec<char> = Vec::new();
        dot.push('.');
        assert(dot@ =~= cur_dir_component());
        let mut r: Vec<Vec<char>> = Vec::new();
        r.push(dot);
        let ghost first = r@;
        let ghost rest = done@;
        assert(views(first) =~= seq![cur_dir_component()]);
        r.append(&mut done);
        assert(r@ =~= first + rest);
        assert(views(r@) =~= views(first) + views(rest));
        r
    } else {
        done
    }
}

/// Whether two lists of components are equal.
pub fn same_components(a: &Vec<Vec<char>>, b: &Vec<Vec<char>>) -> (r: bool)
    ensures
        r == (views(a@) == views(b@)),
{
    if a.len() != b.len() {
        assert(views(a@).len() != views(b@).len());
        return false;
    }
    let mut i: usize = 0;
    while i < a.len()
        invariant
            a.len() == b.len(),
            i <= a.len(),
            forall|j: int| 0 <= j < i ==> a@[j]@ == b@[j]@,
        decreases a.len() - i,
    {
        if !same_chars(&a[i], &b[i]) {
            assert(views(a@)[i as int] != views(b@)[i as int]);
            return false;
        }
        i += 1;
    }
    assert(views(a@) =~= views(b@));
    true
}

/// Whether two character vectors are equal.
pub fn same_chars(a: &Vec<char>, b: &Vec<char>) -> (r: bool)
    ensures
        r == (a@ == b@),
{
    if a.len() != b.len() {
        return false;
    }
    let mut i: usize = 0;
    while i < a.len()
        invariant
            a.len() == b.len(),
            i <= a.len(),
            forall|j: int| 0 <= j < i ==> a@[j] == b@[j],
        decreases a.len() - i,
    {
        if a[i] != b[i] {
            return false;
        }
        i += 1;
    }
    assert(a@ =~= b@);
    true
}

/// Whether the components `base` begin the components `p`.
pub fn starts_with_components(p: &Vec<Vec<char>>, base: &Vec<Vec<char>>) -> (r: bool)
    ensures
        r == (views(base@).len() <= views(p@).len() && views(p@).take(
            views(base@).len() as int,
        ) == views(base@)),
{
    if base.len() > p.len() {
        return false;
    }
    let mut i: usize = 0;
    while i < base.len()
        invariant
            base.len() <= p.len(),
            i <= base.len(),
            forall|j: int| 0 <= j < i ==> p@[j]@ == base@[j]@,
        decreases base.len() - i,
    {
        if !same_chars(&p[i], &base[i]) {
            assert(views(p@).take(views(base@).len() as int)[i as int] != views(base@)[i as int]);
            return false;
        }
        i += 1;
    }
    assert(views(p@).take(views(base@).len() as int) =~= views(base@));
    true
}

/// `cs[from..to]` written out as a path.
pub fn render_range(cs: &Vec<Vec<char>>, from: usize, to: usize) -> (r: Vec<char>)
    requires
        from <= to <= cs.len(),
    ensures
        r@ == render(views(cs@).subrange(from as int, to as int)),
{
    let ghost rest = views(cs@).subrange(from as int, to as int);
    let mut r: Vec<char> = Vec::new();
    let mut start = from;
    if from < to && cs[from].len() == 1 && cs[from][0] == '/' {
        assert(rest[0] =~= root_component());
        r.push('/');
        start = from + 1;
    } else {
        if from < to {
            assert(rest[0] != root_component()) by {
                if rest[0] == root_component() {
                    assert(cs@[from as int]@.len() == 1 && cs@[from as int]@[0] == '/');
                }
            }
        }
    }
    let ghost prefix = r@;
    let ghost tail = views(cs@).subrange(start as int, to as int);
    assert(render(rest) == prefix + join_with_slash(tail)) by {
        if start == from + 1 {
            assert(rest.drop_first() =~= tail);
        } else {
            assert(rest =~= tail);
            assert(prefix =~= seq![]);
        }
    }
    let mut i = start;
    while i < to
        invariant
            start <= i <= to <= cs.len(),
            r@ == prefix + join_with_slash(views(cs@).subrange(start as int, i as int)),
        decreases to - i,
    {
        let ghost before = r@;
        let ghost sub = views(cs@).subrange(start as int, i + 1);
        assert(sub.drop_last() =~= views(cs@).subrange(start as int, i as int));
        if i > start {
            r.push('/');
        }
        let piece = &cs[i];
        let mut k: usize = 0;
        let ghost mid = r@;
        while k < piece.len()
            invariant
                k <= piece.len(),
                r@ == mid + piece@.take(k as int),
            decreases piece.len() - k,
        {
            r.push(piece[k]);
            k += 1;
            assert(r@ =~= mid + piece@.take(k as int));
        }
        assert(piece@.take(piece.len() as int) =~= piece@);
        if i > start {
            assert(r@ =~= prefix + join_with_slash(sub));
        } else {
            assert(sub =~= seq![piece@]);
            assert(r@ =~= prefix + join_with_slash(sub));
        }
        i += 1;
    }
    r
}

/// `b` appended to the path `a` (`Path::join`).
pub fn join_path(a: &str, b: &str) -> (r: String)
    ensures
        r@ == joined(a@, b@),
{
    let av = chars_of(a);
    let bv = chars_of(b);
    if bv.len() > 0 && bv[0] == '/' {
        return string_of(bv.as_slice());
    }
    let mut out = av.clone();
    if !(av.len() == 0 || av[av.len() - 1] == '/') {
        out.push('/');
    }
    let ghost mid = out@;
    let mut i: usize = 0;
    while i < bv.len()
        invariant
            i <= bv.len(),
            out@ == mid + bv@.take(i as int),
        decreases bv.len() - i,
    {
        out.push(bv[i]);
        i += 1;
        assert(out@ =~= mid + bv@.take(i as int));
    }
    assert(bv@.take(bv.len() as int) =~= bv@);
    assert(out@ =~= joined(a@, b@));
    string_of(out.as_slice())
}

/// The last component of the path `p`, unless it is the root or `..`.
pub fn path_file_name(p: &str) -> (r: Option<String>)
    ensures
        r matches Some(s) ==> file_name(p@) == Some(s@),
        r is None ==> file_name(p@) is None,
{
    let cs = path_components(p);
    if cs.len() == 0 {
        return None;
    }
    let last = &cs[cs.len() - 1];
    assert(views(cs@).last() == last@);
    if last.len() == 1 && last[0] == '/' {
        assert(last@ =~= root_component());
        return None;
    }
    if last.len() == 2 && last[0] == '.' && last[1] == '.' {
        assert(last@ =~= seq!['.', '.']);
        return None;
    }
    if last.len() == 1 && last[0] == '.' {
        assert(last@ =~= cur_dir_component());
        return None;
    }
    assert(last@ != cur_dir_component()) by {
        if last@ == cur_dir_component() {
            assert(last@.len() == 1 && last@[0] == '.');
        }
    }
    assert(last@ != root_component()) by {
        if last@ == root_component() {
            assert(last@.len() == 1 && last@[0] == '/');
        }
    }
    assert(last@ != seq!['.', '.']) by {
        if last@ == seq!['.', '.'] {
            assert(last@.len() == 2 && last@[0] == '.' && last@[1] == '.');
        }
    }
    Some(string_of(last.as_slice()))
}

} // verus!
