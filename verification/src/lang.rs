//! Sorting the translation files of a language archive: which catalog a
//! file belongs to is read off its name.

use vstd::prelude::*;
use vstd::string::StringSliceAdditionalSpecFns;

verus! {

/// The kind of translation file a name announces.
#[derive(Eq, PartialEq, Hash, Debug, Clone, Copy, Structural)]
pub enum LangFileType {
    CardName,
    MapName,
}

/// The needle starts at byte `i` of the haystack.
pub open spec fn is_match_at(hay: Seq<u8>, needle: Seq<u8>, i: int) -> bool {
    &&& 0 <= i
    &&& i + needle.len() <= hay.len()
    &&& hay.subrange(i, i + needle.len()) == needle
}

/// The needle occurs somewhere in the haystack.
pub open spec fn contains_bytes(hay: Seq<u8>, needle: Seq<u8>) -> bool {
    exists|i: int| is_match_at(hay, needle, i)
}

/// Whether `needle` occurs in `hay`, byte for byte.
pub fn contains_sub(hay: &str, needle: &str) -> (r: bool)
    ensures
        r == contains_bytes(hay.spec_bytes(), needle.spec_bytes()),
{
    let h = hay.as_bytes();
    let n = needle.as_bytes();
    if n.len() > h.len() {
        proof {
            assert forall|i: int| !is_match_at(hay.spec_bytes(), needle.spec_bytes(), i) by {}
        }
        return false;
    }
    let hl = h.len();
    let nl = n.len();
    let mut i: usize = 0;
    while i <= hl - nl
        invariant
            h@ == hay.spec_bytes(),
            n@ == needle.spec_bytes(),
            hl == h@.len(),
            nl == n@.len(),
            n@.len() <= h@.len(),
            i <= h@.len() - n@.len() + 1,
            forall|k: int| 0 <= k < i ==> !is_match_at(h@, n@, k),
        decreases h@.len() - n@.len() + 1 - i,
    {
        let mut j: usize = 0;
        let mut mismatch = false;
        while j < nl && !mismatch
            invariant
                h@ == hay.spec_bytes(),
                n@ == needle.spec_bytes(),
                hl == h@.len(),
                nl == n@.len(),
                i + n@.len() <= h@.len(),
                j <= n@.len(),
                !mismatch ==> forall|k: int| 0 <= k < j ==> h@[i + k] == n@[k],
                mismatch ==> !is_match_at(h@, n@, i as int),
            decreases n@.len() - j + if mismatch {
                0int
            } else {
                1int
            },
        {
            if h[i + j] != n[j] {
                proof {
                    assert(!is_match_at(h@, n@, i as int)) by {
                        if is_match_at(h@, n@, i as int) {
                            assert(h@.subrange(i as int, i + n@.len()) == n@);
                            assert(h@[i + j] == h@.subrange(
                                i as int,
                                i + n@.len(),
                            )[j as int]);
                        }
                    }
                }
                mismatch = true;
            } else {
                j = j + 1;
            }
        }
        if !mismatch {
            proof {
                assert(h@.subrange(i as int, i + n@.len()) =~= n@);
                assert(is_match_at(h@, n@, i as int));
            }
            return true;
        }
        if i == hl - nl {
            proof {
                assert forall|k: int| !is_match_at(h@, n@, k) by {
                    if 0 <= k < i {
                        assert(!is_match_at(h@, n@, k));
                    }
                }
            }
            return false;
        }
        i = i + 1;
    }
    proof {
        assert forall|k: int| !is_match_at(h@, n@, k) by {
            if 0 <= k <= h@.len() - n@.len() {
                assert(!is_match_at(h@, n@, k));
            }
        }
    }
    false
}

impl LangFileType {
    /// The catalog the file feeds, read off the file's name: map names win
    /// over card names when a name announces both.
    pub fn from_file_name(file_name: &str) -> (r: Option<LangFileType>)
        ensures
            contains_bytes(file_name.spec_bytes(), "MiniGameMapName".spec_bytes()) <==> r == Some(
                LangFileType::MapName,
            ),
            !contains_bytes(file_name.spec_bytes(), "MiniGameMapName".spec_bytes()) ==> (
            contains_bytes(file_name.spec_bytes(), "MiniGameCardName".spec_bytes()) <==> r == Some(
                LangFileType::CardName,
            )),
    {
        if contains_sub(file_name, "MiniGameMapName") {
            Some(LangFileType::MapName)
        } else if contains_sub(file_name, "MiniGameCardName") {
            Some(LangFileType::CardName)
        } else {
            None
        }
    }
}

} // verus!
