//! Deriving the sibling module file names from the chosen `sdk` file
//! name: `sdk` in the name is replaced by each sibling module's name.

use vstd::prelude::*;

use vstd::string::StrSliceExecFns;
use vstd::string::StringExecFns;

verus! {

/// `sdk` occurs in the name at position `i`.
pub open spec fn spec_sdk_at(s: Seq<char>, i: int) -> bool {
    0 <= i && i + 3 <= s.len() && s.subrange(i, i + 3) == "sdk"@
}

/// `sdk` occurs somewhere in the name.
pub open spec fn spec_contains_sdk(s: Seq<char>) -> bool {
    exists|i: int| spec_sdk_at(s, i)
}

/// The name with every occurrence of `sdk` replaced by `rep`, scanning
/// left to right without overlap.
pub open spec fn spec_replace_sdk(s: Seq<char>, rep: Seq<char>) -> Seq<char>
    decreases s.len(),
{
    if s.len() < 3 {
        s
    } else if s.subrange(0, 3) == "sdk"@ {
        rep + spec_replace_sdk(s.skip(3), rep)
    } else {
        s.take(1) + spec_replace_sdk(s.skip(1), rep)
    }
}

/// Replace every occurrence of `sdk` in the name with `rep`, and report
/// whether one occurred.
#[verifier::loop_isolation(false)]
pub fn replace_sdk(name: &str, rep: &str) -> (r: (String, bool))
    ensures
        r.0@ == spec_replace_sdk(name@, rep@),
        r.1 == spec_contains_sdk(name@),
{
    let n = name.unicode_len();
    let mut out = String::new();
    let mut found = false;
    let mut i: usize = 0;
    proof {
        assert(name@.skip(0) =~= name@);
        assert(Seq::<char>::empty() + spec_replace_sdk(name@, rep@) =~= spec_replace_sdk(
            name@,
            rep@,
        ));
    }
    while i < n
        invariant
            i <= n,
            n == name@.len(),
            spec_replace_sdk(name@, rep@) == out@ + spec_replace_sdk(name@.skip(i as int), rep@),
            found ==> spec_contains_sdk(name@),
            !found ==> forall|w: int| w < i ==> !spec_sdk_at(name@, w),
        decreases n - i,
    {
        let ghost rest = name@.skip(i as int);
        let is_match = n - i >= 3 && name.get_char(i) == 's' && name.get_char(i + 1) == 'd'
            && name.get_char(i + 2) == 'k';
        if is_match {
            proof {
                reveal_strlit("sdk");
                assert(rest.subrange(0, 3) =~= name@.subrange(i as int, i as int + 3));
                assert(rest.subrange(0, 3)[0] == 's' && rest.subrange(0, 3)[1] == 'd'
                    && rest.subrange(0, 3)[2] == 'k');
                assert(rest.subrange(0, 3) =~= "sdk"@);
                assert(spec_sdk_at(name@, i as int));
                assert(rest.skip(3) =~= name@.skip(i as int + 3));
                assert((out@ + rep@) + spec_replace_sdk(name@.skip(i as int + 3), rep@) =~= out@
                    + (rep@ + spec_replace_sdk(name@.skip(i as int + 3), rep@)));
            }
            out.append(rep);
            found = true;
            i = i + 3;
        } else {
            let piece = name.substring_char(i, i + 1);
            proof {
                reveal_strlit("sdk");
                assert(piece@ =~= rest.take(1));
                assert(rest.skip(1) =~= name@.skip(i as int + 1));
                if rest.len() >= 3 && rest.subrange(0, 3) == "sdk"@ {
                    assert(name@[i as int] == rest.subrange(0, 3)[0]);
                    assert(name@[i as int + 1] == rest.subrange(0, 3)[1]);
                    assert(name@[i as int + 2] == rest.subrange(0, 3)[2]);
                    assert(false);
                }
                if rest.len() < 3 {
                    assert(rest =~= rest.take(1) + rest.skip(1));
                }
                assert((out@ + rest.take(1)) + spec_replace_sdk(name@.skip(i as int + 1), rep@)
                    =~= out@ + (rest.take(1) + spec_replace_sdk(name@.skip(i as int + 1), rep@)));
                if !found {
                    if spec_sdk_at(name@, i as int) {
                        let sub = name@.subrange(i as int, i as int + 3);
                        assert(sub[0] == name@[i as int] && sub[1] == name@[i as int + 1]
                            && sub[2] == name@[i as int + 2]);
                        assert(sub[0] == 's' && sub[1] == 'd' && sub[2] == 'k');
                        assert(false);
                    }
                    assert(!spec_sdk_at(name@, i as int));
                }
            }
            out.append(piece);
            i = i + 1;
        }
    }
    proof {
        assert(name@.skip(n as int) =~= Seq::<char>::empty());
        assert(out@ + Seq::<char>::empty() =~= out@);
        if !found {
            if spec_contains_sdk(name@) {
                let w = choose|w: int| spec_sdk_at(name@, w);
                assert(!spec_sdk_at(name@, w));
            }
        }
    }
    (out, found)
}

/// The sibling module file names of the chosen `sdk` file: `sdk` in the
/// name replaced by `rtld`, `main` and `subsdk0` in turn, provided the
/// name holds `sdk` at all.
pub fn module_file_names(sdk_name: &str) -> (r: Option<(String, String, String)>)
    ensures
        r is Some <==> spec_contains_sdk(sdk_name@),
        r matches Some(t) ==> t.0@ == spec_replace_sdk(sdk_name@, "rtld"@) && t.1@
            == spec_replace_sdk(sdk_name@, "main"@) && t.2@ == spec_replace_sdk(
            sdk_name@,
            "subsdk0"@,
        ),
{
    let (rtld, found) = replace_sdk(sdk_name, "rtld");
    if !found {
        return None;
    }
    let (main, _) = replace_sdk(sdk_name, "main");
    let (subsdk0, _) = replace_sdk(sdk_name, "subsdk0");
    Some((rtld, main, subsdk0))
}

} // verus!
