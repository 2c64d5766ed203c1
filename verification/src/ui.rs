//! Layout of the file list: how rows are shortened to fit the width and
//! which rows of a long list are visible.
use vstd::prelude::*;
use crate::names::dotted_extension;
use crate::names::file_stem;
use crate::names::stem_and_extension;
use crate::text::chars_of;
use crate::text::string_of;
use crate::app::position;
use crate::dest::texts;
use crate::inbox::InboxFile;

verus! {

/// The ellipsis that marks left-out text.
pub open spec fn ell() -> char {
    '\u{2026}'
}

/// Reading `p`: the non-empty `/`-separated pieces completed so far and the
/// piece after the last `/`.
pub open spec fn scan_pieces(p: Seq<char>) -> (Seq<Seq<char>>, Seq<char>)
    decreases p.len(),
{
    if p.len() == 0 {
        (seq![], seq![])
    } else {
        let (done, cur) = scan_pieces(p.drop_last());
        if p.last() == '/' {
            (if cur.len() > 0 { done.push(cur) } else { done }, seq![])
        } else {
            (done, cur.push(p.last()))
        }
    }
}

/// The non-empty `/`-separated pieces of `p`.
pub open spec fn pieces(p: Seq<char>) -> Seq<Seq<char>> {
    let (done, cur) = scan_pieces(p);
    if cur.len() > 0 {
        done.push(cur)
    } else {
        done
    }
}

/// Number of characters of `s` other than `/`.
pub open spec fn visible_len(s: Seq<char>) -> nat
    decreases s.len(),
{
    if s.len() == 0 {
        0
    } else {
        visible_len(s.drop_last()) + if s.last() == '/' {
            0nat
        } else {
            1nat
        }
    }
}

/// One folder name, with its trailing `/`, shortened to `budget`
/// characters: whole when it fits; else the first and last characters
/// around an ellipsis, as many as fit, when at least 3 fit on each side;
/// else `…/`; else nothing.
pub open spec fn fit_segment(seg: Seq<char>, budget: nat) -> Seq<char> {
    let full = seg.push('/');
    if full.len() <= budget {
        full
    } else if budget < 2 {
        seq![]
    } else if budget < 8 {
        seq![ell(), '/']
    } else {
        let room = (budget - 2) as nat;
        let front = room / 2;
        let back = (room - front) as nat;
        seg.take(front as int) + seq![ell()] + seg.skip(seg.len() - back) + seq!['/']
    }
}

/// A subfolder path shortened to `budget` characters: a single folder as
/// `fit_segment` shortens it; several as `first/…/last/`, else
/// `first/…/` (each only with at least 6 characters besides `/`), else
/// `…/`, else nothing.
pub open spec fn fit_subfolder(sub: Seq<char>, budget: nat) -> Seq<char> {
    let ps = pieces(sub);
    if ps.len() == 0 {
        seq![]
    } else if ps.len() == 1 {
        fit_segment(ps[0], budget)
    } else {
        let head = ps[0] + seq!['/', ell(), '/'];
        let full = head + ps.last() + seq!['/'];
        if full.len() <= budget && visible_len(full) >= 6 {
            full
        } else if head.len() <= budget && visible_len(head) >= 6 {
            head
        } else if 2 <= budget {
            seq![ell(), '/']
        } else {
            seq![]
        }
    }
}

/// A file name shortened to `budget` characters: whole when it fits; else
/// its stem cut in the middle with an ellipsis, keeping the extension,
/// when two stem characters fit; else as much of its beginning as fits
/// before a trailing ellipsis; else (budget 0) nothing.
pub open spec fn fit_filename(name: Seq<char>, budget: nat) -> Seq<char> {
    let ext = dotted_extension(name);
    let stem = match file_stem(name) {
        Some(s) => s,
        None => name,
    };
    let stem_budget = if budget >= ext.len() + 1 {
        (budget - ext.len() - 1) as nat
    } else {
        0
    };
    if name.len() <= budget {
        name
    } else if stem_budget >= 2 {
        if stem_budget >= stem.len() {
            stem + ext
        } else {
            let front = stem_budget / 2;
            let back = (stem_budget - front) as nat;
            stem.take(front as int) + seq![ell()] + stem.skip(stem.len() - back) + ext
        }
    } else if budget >= 1 {
        name.take(budget - 1) + seq![ell()]
    } else {
        name.take(budget as int)
    }
}

/// A file row `(subfolder, file name)` shortened to `budget` characters:
/// with no subfolder the name is kept whole; otherwise first the
/// subfolder is shortened to leave room for the name, then, as a last
/// resort, the name.
pub open spec fn fit_row(sub: Option<Seq<char>>, name: Seq<char>, budget: nat) -> (
    Seq<char>,
    Seq<char>,
) {
    match sub {
        Some(s) if s.len() > 0 => {
            if s.len() + name.len() <= budget {
                (s, name)
            } else {
                let sub_budget = if budget >= name.len() {
                    (budget - name.len()) as nat
                } else {
                    0
                };
                let t = fit_subfolder(s, sub_budget);
                if t.len() + name.len() <= budget {
                    (t, name)
                } else {
                    (t, fit_filename(name, (budget - t.len()) as nat))
                }
            }
        },
        _ => (seq![], name),
    }
}

/// A shortened folder name is never longer than its budget.
pub proof fn lemma_fit_segment_len(seg: Seq<char>, budget: nat)
    ensures
        fit_segment(seg, budget).len() <= budget,
{
}

/// A shortened subfolder is never longer than its budget.
pub proof fn lemma_fit_subfolder_len(sub: Seq<char>, budget: nat)
    ensures
        fit_subfolder(sub, budget).len() <= budget,
{
    let ps = pieces(sub);
    if ps.len() == 1 {
        lemma_fit_segment_len(ps[0], budget);
    }
}

/// A shortened file name is never longer than its budget.
pub proof fn lemma_fit_filename_len(name: Seq<char>, budget: nat)
    ensures
        fit_filename(name, budget).len() <= budget,
{
}

/// A file row with a subfolder always fits its budget once shortened;
/// without one, the subfolder shows as nothing and the name is whole.
pub proof fn lemma_fit_row(sub: Option<Seq<char>>, name: Seq<char>, budget: nat)
    ensures
        (sub matches Some(s) && s.len() > 0) ==> fit_row(sub, name, budget).0.len() + fit_row(
            sub,
            name,
            budget,
        ).1.len() <= budget,
        !(sub matches Some(s) && s.len() > 0) ==> fit_row(sub, name, budget) == (
            Seq::<char>::empty(),
            name,
        ),
{
    if let Some(s) = sub {
        if s.len() > 0 && s.len() + name.len() > budget {
            let sub_budget = if budget >= name.len() {
                (budget - name.len()) as nat
            } else {
                0
            };
            lemma_fit_subfolder_len(s, sub_budget);
            let t = fit_subfolder(s, sub_budget);
            if t.len() + name.len() > budget {
                lemma_fit_filename_len(name, (budget - t.len()) as nat);
            }
        }
    }
}

fn split_pieces(v: &Vec<char>) -> (r: Vec<Vec<char>>)
    ensures
        r@.map_values(|x: Vec<char>| x@) == pieces(v@),
{
    let n = v.len();
    let mut done: Vec<Vec<char>> = Vec::new();
    let mut cur: Vec<char> = Vec::new();
    let mut i: usize = 0;
    while i < n
        invariant
            n == v@.len(),
            i <= n,
            (done@.map_values(|x: Vec<char>| x@), cur@) == scan_pieces(v@.take(i as int)),
        decreases n - i,
    {
        let c = v[i];
        assert(v@.take(i + 1).drop_last() =~= v@.take(i as int));
        if c == '/' {
            if cur.len() > 0 {
                let ghost old_done = done@;
                done.push(cur);
                assert(done@.map_values(|x: Vec<char>| x@) =~= old_done.map_values(
                    |x: Vec<char>| x@,
                ).push(cur@));
            }
            cur = Vec::new();
            assert(cur@ =~= seq![]);
        } else {
            cur.push(c);
        }
        i += 1;
    }
    assert(v@.take(n as int) =~= v@);
    if cur.len() > 0 {
        let ghost old_done = done@;
        done.push(cur);
        assert(done@.map_values(|x: Vec<char>| x@) =~= old_done.map_values(|x: Vec<char>| x@).push(
            cur@,
        ));
    }
    done
}

fn count_visible(s: &Vec<char>) -> (r: usize)
    ensures
        r == visible_len(s@),
{
    let mut k: usize = 0;
    let mut i: usize = 0;
    while i < s.len()
        invariant
            i <= s.len(),
            k == visible_len(s@.take(i as int)),
            k <= i,
        decreases s.len() - i,
    {
        assert(s@.take(i + 1).drop_last() =~= s@.take(i as int));
        if s[i] != '/' {
            k += 1;
        }
        i += 1;
    }
    assert(s@.take(s.len() as int) =~= s@);
    k
}

/// Number of characters of `s` other than `/`: the visible content of a
/// shortened subfolder.
pub fn visible_content_len(s: &str) -> (r: usize)
    ensures
        r == visible_len(s@),
{
    count_visible(&chars_of(s))
}

pub(crate) fn append_chars(out: &mut Vec<char>, v: &Vec<char>, from: usize, to: usize)
    requires
        from <= to <= v.len(),
    ensures
        final(out)@ == old(out)@ + v@.subrange(from as int, to as int),
{
    let ghost start = out@;
    let mut i = from;
    while i < to
        invariant
            from <= i <= to <= v.len(),
            out@ == start + v@.subrange(from as int, i as int),
        decreases to - i,
    {
        out.push(v[i]);
        i += 1;
        assert(out@ =~= start + v@.subrange(from as int, i as int));
    }
}

fn fit_segment_chars(seg: &Vec<char>, budget: usize) -> (r: Vec<char>)
    ensures
        r@ == fit_segment(seg@, budget as nat),
{
    let mut full: Vec<char> = Vec::new();
    append_chars(&mut full, seg, 0, seg.len());
    full.push('/');
    assert(full@ =~= seg@.push('/'));
    if full.len() <= budget {
        return full;
    }
    if budget < 2 {
        return Vec::new();
    }
    let available_for_content = budget - 2;
    if available_for_content < 6 {
        let mut r: Vec<char> = Vec::new();
        r.push('\u{2026}');
        r.push('/');
        assert(r@ =~= seq![ell(), '/']);
        return r;
    }
    let front_len = available_for_content / 2;
    let back_len = available_for_content - front_len;
    if front_len + back_len >= seg.len() {
        return full;
    }
    let mut r: Vec<char> = Vec::new();
    append_chars(&mut r, seg, 0, front_len);
    r.push('\u{2026}');
    append_chars(&mut r, seg, seg.len() - back_len, seg.len());
    r.push('/');
    assert(r@ =~= fit_segment(seg@, budget as nat));
    r
}

/// Shortens a single folder name to fit within `budget` characters,
/// including its trailing `/`.
pub fn truncate_single_segment(segment: &str, budget: usize) -> (r: String)
    ensures
        r@ == fit_segment(segment@, budget as nat),
{
    string_of(fit_segment_chars(&chars_of(segment), budget).as_slice())
}

fn fit_subfolder_chars(sub: &Vec<char>, budget: usize) -> (r: Vec<char>)
    ensures
        r@ == fit_subfolder(sub@, budget as nat),
{
    let segments = split_pieces(sub);
    let ghost ps = segments@.map_values(|x: Vec<char>| x@);
    if segments.len() == 0 {
        return Vec::new();
    }
    if segments.len() == 1 {
        assert(ps[0] == segments@[0]@);
        return fit_segment_chars(&segments[0], budget);
    }
    let first = &segments[0];
    let last = &segments[segments.len() - 1];
    assert(ps[0] == first@);
    assert(ps.last() == last@);
    let mut head: Vec<char> = Vec::new();
    append_chars(&mut head, first, 0, first.len());
    head.push('/');
    head.push('\u{2026}');
    head.push('/');
    assert(head@ =~= ps[0] + seq!['/', ell(), '/']);
    let mut full: Vec<char> = Vec::new();
    append_chars(&mut full, &head, 0, head.len());
    append_chars(&mut full, last, 0, last.len());
    full.push('/');
    assert(full@ =~= head@ + ps.last() + seq!['/']);
    if full.len() <= budget && count_visible(&full) >= 6 {
        return full;
    }
    if head.len() <= budget && count_visible(&head) >= 6 {
        return head;
    }
    if 2 <= budget {
        let mut r: Vec<char> = Vec::new();
        r.push('\u{2026}');
        r.push('/');
        assert(r@ =~= seq![ell(), '/']);
        return r;
    }
    Vec::new()
}

/// Shortens a subfolder path (e.g. `"ProjectA/Client Work/"`) to fit
/// within `budget` characters, using middle ellipses; empty when nothing
/// of it can be shown.
pub fn truncate_subfolder(subfolder: &str, budget: usize) -> (r: String)
    ensures
        r@ == fit_subfolder(subfolder@, budget as nat),
{
    string_of(fit_subfolder_chars(&chars_of(subfolder), budget).as_slice())
}

fn stem_and_dotted_extension(name: &Vec<char>, name_s: &str) -> (r: (Vec<char>, Vec<char>))
    requires
        name@ == name_s@,
    ensures
        r.0@ == match file_stem(name@) {
            Some(s) => s,
            None => name@,
        },
        r.1@ == dotted_extension(name@),
{
    let (stem_o, ext_o) = stem_and_extension(name_s);
    let mut ext: Vec<char> = Vec::new();
    match ext_o {
        Some(e) => {
            ext.push('.');
            append_chars(&mut ext, &e, 0, e.len());
            assert(ext@ =~= dotted_extension(name@));
        },
        None => {
            assert(ext@ =~= dotted_extension(name@));
        },
    }
    let stem = match stem_o {
        Some(s) => s,
        None => {
            let mut s: Vec<char> = Vec::new();
            append_chars(&mut s, name, 0, name.len());
            assert(s@ =~= name@);
            s
        },
    };
    (stem, ext)
}

fn cut_stem(stem: &Vec<char>, ext: &Vec<char>, stem_budget: usize, budget: usize) -> (r: Vec<char>)
    requires
        stem_budget >= 2,
        stem_budget + ext.len() + 1 == budget,
    ensures
        r@ == if stem_budget >= stem.len() {
            stem@ + ext@
        } else {
            let front = stem_budget as nat / 2;
            let back = (stem_budget - front) as nat;
            stem@.take(front as int) + seq![ell()] + stem@.skip(stem.len() - back) + ext@
        },
{
    let front_len = stem_budget / 2;
    let back_len = stem_budget - front_len;
    if front_len + back_len >= stem.len() {
        let mut full: Vec<char> = Vec::new();
        append_chars(&mut full, stem, 0, stem.len());
        append_chars(&mut full, ext, 0, ext.len());
        assert(full@ =~= stem@ + ext@);
        if full.len() <= budget {
            return full;
        }
    }
    let front_end = if front_len < stem.len() {
        front_len
    } else {
        stem.len()
    };
    let back_start = if stem.len() >= back_len {
        stem.len() - back_len
    } else {
        0
    };
    let mut r: Vec<char> = Vec::new();
    append_chars(&mut r, stem, 0, front_end);
    r.push('\u{2026}');
    append_chars(&mut r, stem, back_start, stem.len());
    append_chars(&mut r, ext, 0, ext.len());
    assert(r@ =~= stem@.take(front_len as int) + seq![ell()] + stem@.skip(stem.len() - back_len)
        + ext@);
    r
}

fn fit_filename_chars(name: &Vec<char>, name_s: &str, budget: usize) -> (r: Vec<char>)
    requires
        name@ == name_s@,
    ensures
        r@ == fit_filename(name@, budget as nat),
{
    if name.len() <= budget {
        let mut r: Vec<char> = Vec::new();
        append_chars(&mut r, name, 0, name.len());
        assert(r@ =~= name@);
        return r;
    }
    let (stem, ext) = stem_and_dotted_extension(name, name_s);
    let stem_budget = if ext.len() < budget {
        budget - ext.len() - 1
    } else {
        0
    };
    if stem_budget >= 2 {
        return cut_stem(&stem, &ext, stem_budget, budget);
    }
    if budget >= 1 {
        let keep = budget - 1;
        let mut r: Vec<char> = Vec::new();
        append_chars(&mut r, name, 0, keep);
        r.push('\u{2026}');
        assert(r@ =~= name@.take(budget - 1) + seq![ell()]);
        return r;
    }
    let mut r: Vec<char> = Vec::new();
    append_chars(&mut r, name, 0, budget);
    assert(r@ =~= name@.take(budget as int));
    r
}

/// Shortens a file name to fit within `budget` characters, keeping the
/// extension and cutting the stem in the middle.
pub fn truncate_filename(filename: &str, budget: usize) -> (r: String)
    ensures
        r@ == fit_filename(filename@, budget as nat),
{
    let v = chars_of(filename);
    string_of(fit_filename_chars(&v, filename, budget).as_slice())
}

/// Shortens a file row to fit within `budget` characters, returning
/// `(subfolder_display, filename_display)`.
///
/// When `subfolder` is `None` or empty, the subfolder display is `""` and
/// the file name is kept whole. Otherwise the subfolder is shortened first,
/// then, as a last resort, the file name's stem.
pub fn truncate_file_row(subfolder: Option<&str>, filename: &str, budget: usize) -> (r: (
    String,
    String,
))
    ensures
        (r.0@, r.1@) == fit_row(
            match subfolder {
                Some(s) => Some(s@),
                None => None,
            },
            filename@,
            budget as nat,
        ),
{
    let name = chars_of(filename);
    let sub = match subfolder {
        Some(s) => {
            let v = chars_of(s);
            if v.len() == 0 {
                return (string_of(Vec::<char>::new().as_slice()), string_of(name.as_slice()));
            }
            v
        },
        None => {
            return (string_of(Vec::<char>::new().as_slice()), string_of(name.as_slice()));
        },
    };
    if sub.len() <= budget && name.len() <= budget - sub.len() {
        return (string_of(sub.as_slice()), string_of(name.as_slice()));
    }
    let sub_budget = if budget >= name.len() {
        budget - name.len()
    } else {
        0
    };
    let t = fit_subfolder_chars(&sub, sub_budget);
    if t.len() <= budget && name.len() <= budget - t.len() {
        return (string_of(t.as_slice()), string_of(name.as_slice()));
    }
    proof {
        lemma_fit_subfolder_len(sub@, sub_budget as nat);
    }
    let f = fit_filename_chars(&name, filename, budget - t.len());
    (string_of(t.as_slice()), string_of(f.as_slice()))
}

/// The rows `[start, end)` of a list of `total` rows that are shown in
/// `rows` lines with the cursor at row `cursor`: the cursor sits in the
/// middle where the list allows.
pub open spec fn window(cursor: nat, total: nat, rows: nat) -> (nat, nat) {
    if total == 0 || rows == 0 {
        (0, 0)
    } else {
        let top = if cursor >= rows / 2 {
            (cursor - rows / 2) as nat
        } else {
            0
        };
        let end = if top + rows <= total {
            top + rows
        } else {
            total
        };
        (if end >= rows {
            (end - rows) as nat
        } else {
            0
        }, end)
    }
}

/// Whether the end of a window of `rows` rows around `cursor` can be
/// counted in a `usize`.
pub open spec fn window_fits(cursor: nat, rows: nat) -> bool {
    (if cursor >= rows / 2 {
        cursor - rows / 2
    } else {
        0
    }) + rows <= usize::MAX
}

/// Computes the visible window `(start, end)` of a scrollable list so
/// that the cursor is visible and the window fits within `visible_rows`.
pub fn visible_window(cursor: usize, total: usize, visible_rows: usize) -> (r: (usize, usize))
    requires
        total == 0 || visible_rows == 0 || window_fits(cursor as nat, visible_rows as nat),
    ensures
        (r.0 as nat, r.1 as nat) == window(cursor as nat, total as nat, visible_rows as nat),
{
    if total == 0 || visible_rows == 0 {
        return (0, 0);
    }
    let top = if cursor >= visible_rows / 2 {
        cursor - visible_rows / 2
    } else {
        0
    };
    let end_exclusive = if top + visible_rows <= total {
        top + visible_rows
    } else {
        total
    };
    let start = if end_exclusive >= visible_rows {
        end_exclusive - visible_rows
    } else {
        0
    };
    (start, end_exclusive)
}

/// The visible window keeps a cursor that lies in the list on screen, never
/// holds more rows than fit, and never runs past the end of the list.
pub proof fn lemma_window(cursor: nat, total: nat, rows: nat)
    ensures
        window(cursor, total, rows).0 <= window(cursor, total, rows).1 <= total,
        window(cursor, total, rows).1 - window(cursor, total, rows).0 <= rows,
        cursor < total && rows > 0 ==> window(cursor, total, rows).0 <= cursor < window(
            cursor,
            total,
            rows,
        ).1,
        total <= rows ==> window(cursor, total, rows) == (0nat, total),
{
}

// ---------------------------------------------------------------------
// Inbox labels
// ---------------------------------------------------------------------

/// The label of each file, in list order.
pub open spec fn file_labels(files: Seq<InboxFile>) -> Seq<Seq<char>> {
    files.map_values(|f: InboxFile| f.label@)
}

/// The distinct labels of `labels`, in order of first appearance.
pub open spec fn distinct_labels(labels: Seq<Seq<char>>) -> Seq<Seq<char>>
    decreases labels.len(),
{
    if labels.len() == 0 {
        seq![]
    } else {
        let seen = distinct_labels(labels.drop_last());
        if seen.contains(labels.last()) {
            seen
        } else {
            seen.push(labels.last())
        }
    }
}

/// Every label occurs once among the distinct labels, and they are exactly
/// the labels that occur in the list.
pub proof fn lemma_distinct_labels(labels: Seq<Seq<char>>)
    ensures
        forall|i: int, j: int|
            0 <= i < j < distinct_labels(labels).len() ==> distinct_labels(labels)[i]
                != distinct_labels(labels)[j],
        forall|x: Seq<char>| distinct_labels(labels).contains(x) <==> labels.contains(x),
    decreases labels.len(),
{
    if labels.len() > 0 {
        let init = labels.drop_last();
        lemma_distinct_labels(init);
        assert forall|x: Seq<char>| labels.contains(x) <==> (init.contains(x) || x == labels.last()) by {
            if labels.contains(x) {
                let k = choose|k: int| 0 <= k < labels.len() && labels[k] == x;
                if k < labels.len() - 1 {
                    assert(init[k] == x);
                }
            }
            if init.contains(x) {
                let k = choose|k: int| 0 <= k < init.len() && init[k] == x;
                assert(labels[k] == x);
            }
            if x == labels.last() {
                assert(labels[labels.len() - 1] == x);
            }
        }
        let seen = distinct_labels(init);
        if !seen.contains(labels.last()) {
            let r = seen.push(labels.last());
            assert forall|x: Seq<char>| r.contains(x) <==> (seen.contains(x) || x == labels.last()) by {
                if r.contains(x) {
                    let k = choose|k: int| 0 <= k < r.len() && r[k] == x;
                    if k < seen.len() {
                        assert(seen[k] == x);
                    }
                }
                if seen.contains(x) {
                    let k = choose|k: int| 0 <= k < seen.len() && seen[k] == x;
                    assert(r[k] == x);
                }
                if x == labels.last() {
                    assert(r[seen.len() as int] == x);
                }
            }
            assert forall|i: int, j: int| 0 <= i < j < r.len() implies r[i] != r[j] by {
                if j == seen.len() {
                    assert(seen[i] == r[i]);
                    assert(seen.contains(r[i]));
                }
            }
        }
    }
}

proof fn lemma_position_push(s: Seq<Seq<char>>, y: Seq<char>, x: Seq<char>)
    ensures
        position(s.push(y), x) == if s.contains(x) {
            position(s, x)
        } else if y == x {
            Some(s.len())
        } else {
            None::<nat>
        },
    decreases s.len(),
{
    let t = s.push(y);
    if s.len() > 0 {
        assert(t[0] == s[0]);
        assert(t.drop_first() =~= s.drop_first().push(y));
        lemma_position_push(s.drop_first(), y, x);
        if s[0] != x {
            assert(s.contains(x) <==> s.drop_first().contains(x)) by {
                if s.contains(x) {
                    let k = choose|k: int| 0 <= k < s.len() && s[k] == x;
                    assert(s.drop_first()[k - 1] == x);
                }
                if s.drop_first().contains(x) {
                    let k = choose|k: int| 0 <= k < s.drop_first().len() && s.drop_first()[k] == x;
                    assert(s[k + 1] == x);
                }
            }
            assert(position(t, x) == match position(t.drop_first(), x) {
                Some(i) => Some(i + 1),
                None => None::<nat>,
            });
        } else {
            assert(s.contains(x)) by {
                assert(s[0] == x);
            }
            assert(position(t, x) == Some(0nat));
            assert(position(s, x) == Some(0nat));
        }
    } else {
        assert(!s.contains(x));
        assert(t[0] == y);
        assert(t.drop_first() =~= Seq::<Seq<char>>::empty());
        assert(position(t.drop_first(), x) is None);
    }
}

proof fn lemma_position_of_member(s: Seq<Seq<char>>, x: Seq<char>)
    requires
        s.contains(x),
    ensures
        position(s, x) matches Some(i) && i < s.len() && s[i as int] == x,
    decreases s.len(),
{
    if s[0] != x {
        let k = choose|k: int| 0 <= k < s.len() && s[k] == x;
        assert(s.drop_first()[k - 1] == x);
        lemma_position_of_member(s.drop_first(), x);
    }
}

/// The distinct labels come in order of their first appearance: each
/// label's first position among all the labels is before that of every
/// label listed after it.
pub proof fn lemma_distinct_labels_in_first_order(labels: Seq<Seq<char>>)
    ensures
        forall|i: int|
            0 <= i < distinct_labels(labels).len() ==> position(
                labels,
                #[trigger] distinct_labels(labels)[i],
            ) is Some,
        forall|i: int, j: int|
            0 <= i < j < distinct_labels(labels).len() ==> position(
                labels,
                #[trigger] distinct_labels(labels)[i],
            )->0 < position(labels, #[trigger] distinct_labels(labels)[j])->0,
    decreases labels.len(),
{
    lemma_distinct_labels(labels);
    let r = distinct_labels(labels);
    assert forall|i: int| 0 <= i < r.len() implies position(labels, #[trigger] r[i]) is Some by {
        assert(r.contains(r[i]));
        lemma_position_of_member(labels, r[i]);
    }
    if labels.len() > 0 {
        let init = labels.drop_last();
        let l = labels.last();
        lemma_distinct_labels_in_first_order(init);
        lemma_distinct_labels(init);
        let p = distinct_labels(init);
        assert(labels =~= init.push(l));
        assert forall|i: int| 0 <= i < p.len() implies position(labels, #[trigger] p[i])
            == position(init, p[i]) by {
            assert(p.contains(p[i]));
            lemma_position_push(init, l, p[i]);
        }
        if !p.contains(l) {
            assert(!init.contains(l));
            lemma_position_push(init, l, l);
            assert forall|i: int| 0 <= i < p.len() implies (position(init, #[trigger] p[i])
                matches Some(k) && k < init.len()) by {
                assert(p.contains(p[i]));
                lemma_position_of_member(init, p[i]);
            }
            assert forall|i: int, j: int| 0 <= i < j < r.len() implies position(
                labels,
                #[trigger] r[i],
            )->0 < position(labels, #[trigger] r[j])->0 by {
                assert(r[i] == p[i]);
                if j < p.len() {
                    assert(r[j] == p[j]);
                } else {
                    assert(r[j] == l);
                }
            }
        } else {
            assert forall|i: int, j: int| 0 <= i < j < r.len() implies position(
                labels,
                #[trigger] r[i],
            )->0 < position(labels, #[trigger] r[j])->0 by {
                assert(r[i] == p[i] && r[j] == p[j]);
            }
        }
    }
}

/// Builds the list of the distinct inbox labels of the files, in order of
/// first appearance.
pub fn unique_labels(files: &[InboxFile]) -> (r: Vec<String>)
    ensures
        texts(r@) == distinct_labels(file_labels(files@)),
{
    let ghost labels = file_labels(files@);
    let mut seen: Vec<String> = Vec::new();
    let mut i: usize = 0;
    assert(labels.take(0) =~= seq![]);
    assert(texts(seen@) =~= seq![]);
    while i < files.len()
        invariant
            i <= files.len(),
            labels == file_labels(files@),
            texts(seen@) == distinct_labels(labels.take(i as int)),
        decreases files.len() - i,
    {
        assert(labels.take(i + 1).drop_last() =~= labels.take(i as int));
        assert(labels.take(i + 1).last() == files@[i as int].label@);
        let ghost t = texts(seen@);
        let mut found = false;
        let mut k: usize = 0;
        while k < seen.len()
            invariant
                k <= seen.len(),
                t == texts(seen@),
                i < files.len(),
                found <==> exists|m: int| 0 <= m < k && t[m] == files@[i as int].label@,
            decreases seen.len() - k,
        {
            if seen[k] == files[i].label {
                found = true;
                assert(t[k as int] == files@[i as int].label@);
            }
            k += 1;
        }
        proof {
            if found {
                let m = choose|m: int| 0 <= m < k && t[m] == files@[i as int].label@;
                assert(t.contains(files@[i as int].label@));
            } else {
                assert(!t.contains(files@[i as int].label@));
            }
        }
        if !found {
            let ghost before = seen@;
            seen.push(files[i].label.clone());
            assert(texts(seen@) =~= texts(before).push(files@[i as int].label@));
        }
        i += 1;
    }
    assert(labels.take(files.len() as int) =~= labels);
    seen
}

/// Foreground colours given to inbox labels.
#[derive(Debug, Clone, Copy, PartialEq, Eq, Structural)]
pub enum LabelColor {
    Blue,
    Green,
    Magenta,
    Cyan,
}

/// The colour of the label at `index` among the distinct labels: the
/// palette Blue, Green, Magenta, Cyan, cycled.
pub open spec fn palette(index: nat) -> LabelColor {
    if index % 4 == 0 {
        LabelColor::Blue
    } else if index % 4 == 1 {
        LabelColor::Green
    } else if index % 4 == 2 {
        LabelColor::Magenta
    } else {
        LabelColor::Cyan
    }
}

/// Returns the colour of an inbox label by its position among the
/// distinct labels.
pub fn label_color(label_index: usize) -> (r: LabelColor)
    ensures
        r == palette(label_index as nat),
{
    let k = label_index % 4;
    if k == 0 {
        LabelColor::Blue
    } else if k == 1 {
        LabelColor::Green
    } else if k == 2 {
        LabelColor::Magenta
    } else {
        LabelColor::Cyan
    }
}

} // verus!
