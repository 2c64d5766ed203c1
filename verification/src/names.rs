//! File names: stems and extensions.
use vstd::prelude::*;
use crate::paths::file_name;
use crate::paths::path_file_name;
use crate::text::chars_of;

verus! {

/// Index of the last `.` in `s`, or -1 when there is none.
pub open spec fn last_dot(s: Seq<char>) -> int
    decreases s.len(),
{
    if s.len() == 0 {
        -1
    } else if s.last() == '.' {
        s.len() - 1
    } else {
        last_dot(s.drop_last())
    }
}

proof fn lemma_last_dot(s: Seq<char>)
    ensures
        -1 <= last_dot(s) < s.len(),
        last_dot(s) >= 0 ==> s[last_dot(s)] == '.',
        forall|j: int| last_dot(s) < j < s.len() ==> s[j] != '.',
    decreases s.len(),
{
    if s.len() > 0 && s.last() != '.' {
        lemma_last_dot(s.drop_last());
        assert forall|j: int| last_dot(s) < j < s.len() implies s[j] != '.' by {
            if j < s.len() - 1 {
                assert(s[j] == s.drop_last()[j]);
            }
        }
        if last_dot(s) >= 0 {
            assert(s[last_dot(s)] == s.drop_last()[last_dot(s)]);
        }
    }
}

/// The extension of a file name: what follows its last `.`, when something
/// precedes that `.`.
pub open spec fn name_extension(name: Seq<char>) -> Option<Seq<char>> {
    let d = last_dot(name);
    if d > 0 {
        Some(name.skip(d + 1))
    } else {
        None
    }
}

/// The stem of a file name: the name without its extension and the `.`
/// before it.
pub open spec fn name_stem(name: Seq<char>) -> Seq<char> {
    let d = last_dot(name);
    if d > 0 {
        name.take(d)
    } else {
        name
    }
}

/// The extension of the path `p` (`Path::extension`).
pub open spec fn extension(p: Seq<char>) -> Option<Seq<char>> {
    match file_name(p) {
        Some(n) => name_extension(n),
        None => None,
    }
}

/// The stem of the path `p` (`Path::file_stem`).
pub open spec fn file_stem(p: Seq<char>) -> Option<Seq<char>> {
    match file_name(p) {
        Some(n) => Some(name_stem(n)),
        None => None,
    }
}

/// `"." + extension` of `p`, or nothing when `p` has no extension.
pub open spec fn dotted_extension(p: Seq<char>) -> Seq<char> {
    match extension(p) {
        Some(e) => seq!['.'] + e,
        None => seq![],
    }
}

/// Stem and extension of `p`: `(file_stem, extension)`.
pub fn stem_and_extension(p: &str) -> (r: (Option<Vec<char>>, Option<Vec<char>>))
    ensures
        r.0 matches Some(s) ==> file_stem(p@) == Some(s@),
        r.0 is None ==> file_stem(p@) is None,
        r.1 matches Some(e) ==> extension(p@) == Some(e@),
        r.1 is None ==> extension(p@) is None,
{
    match path_file_name(p) {
        None => (None, None),
        Some(name) => {
            let v = chars_of(name.as_str());
            let n = v.len();
            let mut j: usize = n;
            while j > 0 && v[j - 1] != '.'
                invariant
                    j <= n == v@.len(),
                    forall|k: int| j <= k < n ==> v@[k] != '.',
                decreases j,
            {
                j -= 1;
            }
            proof {
                lemma_last_dot(v@);
                if j > 0 {
                    assert(v@[j - 1] == '.');
                    assert(last_dot(v@) == j - 1);
                } else {
                    assert(last_dot(v@) == -1) by {
                        if last_dot(v@) >= 0 {
                            assert(v@[last_dot(v@)] == '.');
                        }
                    }
                }
            }
            if j > 1 {
                let d = j - 1;
                let mut stem: Vec<char> = Vec::new();
                let mut i: usize = 0;
                while i < d
                    invariant
                        i <= d < n == v@.len(),
                        stem@ == v@.take(i as int),
                    decreases d - i,
                {
                    stem.push(v[i]);
                    i += 1;
                    assert(stem@ =~= v@.take(i as int));
                }
                let mut ext: Vec<char> = Vec::new();
                let mut i: usize = j;
                while i < n
                    invariant
                        j <= i <= n == v@.len(),
                        ext@ == v@.subrange(j as int, i as int),
                    decreases n - i,
                {
                    ext.push(v[i]);
                    i += 1;
                    assert(ext@ =~= v@.subrange(j as int, i as int));
                }
                assert(ext@ =~= v@.skip(j as int));
                (Some(stem), Some(ext))
            } else {
                (Some(v), None)
            }
        },
    }
}

} // verus!
