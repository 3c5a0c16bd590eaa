//! Selecting the files a scan indexes: glob filtering of candidate paths and
//! recognition of the persisted store artifact, which no scan may re-index.

use vstd::prelude::*;

verus! {

/// Whether a glob pattern matches a path, as the glob matcher decides it.
pub uninterp spec fn glob_matches(pattern: Seq<char>, path: Seq<char>) -> bool;

/// Relies on glob_match::glob_match: whether the glob pattern matches the
/// path; a pure function of the two strings.
#[verifier::external_body]
fn glob_match_str(pattern: &str, path: &str) -> (r: bool)
    ensures
        r == glob_matches(pattern@, path@),
{
    glob_match::glob_match(pattern, path)
}

/// One step of glob filtering: filtering a sequence keeps its last path
/// exactly when the pattern matches it.
proof fn lemma_glob_filter_step(s: Seq<Seq<char>>, pattern: Seq<char>)
    requires
        s.len() > 0,
    ensures
        glob_matches(pattern, s.last()) ==> s.filter(|q: Seq<char>| glob_matches(pattern, q))
            == s.drop_last().filter(|q: Seq<char>| glob_matches(pattern, q)).push(s.last()),
        !glob_matches(pattern, s.last()) ==> s.filter(|q: Seq<char>| glob_matches(pattern, q))
            == s.drop_last().filter(|q: Seq<char>| glob_matches(pattern, q)),
{
    reveal_with_fuel(Seq::<Seq<char>>::filter, 2);
}

/// Keeps exactly the paths the glob pattern matches, in their original order.
pub fn filter_matching_paths(pattern: &str, paths: Vec<String>) -> (r: Vec<String>)
    ensures
        r.deep_view() == paths.deep_view().filter(|q: Seq<char>| glob_matches(pattern@, q)),
{
    let mut r: Vec<String> = Vec::new();
    let mut i: usize = 0;
    proof {
        reveal_with_fuel(Seq::<Seq<char>>::filter, 1);
        assert(paths.deep_view().subrange(0, 0) =~= Seq::<Seq<char>>::empty());
        assert(Seq::<Seq<char>>::empty().filter(|q: Seq<char>| glob_matches(pattern@, q)) =~= Seq::<
            Seq<char>,
        >::empty());
    }
    while i < paths.len()
        invariant
            i <= paths@.len(),
            r.deep_view() == paths.deep_view().subrange(0, i as int).filter(
                |q: Seq<char>| glob_matches(pattern@, q),
            ),
        decreases paths@.len() - i,
    {
        let ghost prefix = paths.deep_view().subrange(0, i as int);
        let ghost prefix_next = paths.deep_view().subrange(0, i as int + 1);
        proof {
            assert(prefix_next.drop_last() =~= prefix);
            assert(prefix_next.last() == paths.deep_view()[i as int]);
        }
        let p = paths[i].clone();
        let matched = glob_match_str(pattern, p.as_str());
        proof {
            assert(p@ == paths.deep_view()[i as int]);
            lemma_glob_filter_step(prefix_next, pattern@);
        }
        if matched {
            let ghost prev = r.deep_view();
            r.push(p);
            proof {
                assert(r.deep_view() =~= prev.push(p@));
            }
        }
        i = i + 1;
    }
    proof {
        assert(paths.deep_view().subrange(0, paths@.len() as int) =~= paths.deep_view());
    }
    r
}

/// The file the persisted store is written to, in the scanned directory.
pub const STORE_FILE_NAME: &'static str = ".luckyshot.file.vectors.v1";

/// Whether a path names the persisted store artifact: it ends with the
/// store's file name, so a scan never indexes the store itself.
pub open spec fn is_store_path(path: Seq<char>) -> bool {
    let sfx = ".luckyshot.file.vectors.v1"@;
    path.len() >= sfx.len() && path.skip(path.len() - sfx.len() as int) == sfx
}

/// Recognizes the persisted store artifact by its file name suffix.
pub fn is_store_artifact(path: &str) -> (r: bool)
    ensures
        r == is_store_path(path@),
{
    let sfx = ".luckyshot.file.vectors.v1";
    let n = path.unicode_len();
    let m = sfx.unicode_len();
    if n < m {
        return false;
    }
    let mut i: usize = 0;
    while i < m
        invariant
            i <= m,
            m <= n,
            n == path@.len(),
            sfx@ == ".luckyshot.file.vectors.v1"@,
            m == ".luckyshot.file.vectors.v1"@.len(),
            forall|j: int| 0 <= j < i ==> path@[n - m + j] == ".luckyshot.file.vectors.v1"@[j],
        decreases m - i,
    {
        if path.get_char(n - m + i) != sfx.get_char(i) {
            proof {
                let tail = path@.skip(n as int - m as int);
                assert(tail[i as int] == path@[n - m + i]);
                assert(tail != ".luckyshot.file.vectors.v1"@) by {
                    if tail == ".luckyshot.file.vectors.v1"@ {
                        assert(tail[i as int] == ".luckyshot.file.vectors.v1"@[i as int]);
                    }
                }
            }
            return false;
        }
        i = i + 1;
    }
    proof {
        assert(path@.skip(n as int - m as int) =~= ".luckyshot.file.vectors.v1"@);
    }
    true
}

} // verus!
