//! Lock diagnostics: reporting platform keys missing from each entry's
//! cross-platform source matrix.
use vstd::prelude::*;

use crate::lock::LockFile;
use crate::ops::sources_find;
use crate::text;

verus! {

/// The full platform key set a complete matrix covers.
pub open spec fn full_platform_keys() -> Seq<Seq<char>> {
    seq![
        "linux-amd64"@,
        "linux-arm64"@,
        "darwin-amd64"@,
        "darwin-arm64"@,
        "windows-amd64"@,
        "windows-arm64"@,
    ]
}

/// The keys of the full set missing from a matrix, in the fixed order.
pub open spec fn missing_keys(m: Seq<(String, String)>, keys: Seq<Seq<char>>) -> Seq<Seq<char>>
    decreases keys.len(),
{
    if keys.len() == 0 {
        Seq::empty()
    } else {
        let rest = missing_keys(m, keys.skip(1));
        if sources_find(m, keys[0]) is None {
            seq![keys[0]] + rest
        } else {
            rest
        }
    }
}

/// Report, for each lock entry, which of the six platform keys its source
/// matrix misses; an entry without a matrix is reported with no keys at
/// all (`None`).
#[verifier::loop_isolation(false)]
pub fn list_missing(lock: &LockFile) -> (r: Vec<(String, Option<Vec<String>>)>)
    ensures
        r.len() == lock.tools.len(),
        forall|i: int|
            0 <= i < r@.len() ==> (#[trigger] r@[i]).0 == lock.tools@[i].0 && (match (
                r@[i].1,
                lock.tools@[i].1.sources,
            ) {
                (Option::Some(ks), Option::Some(m)) => ks.deep_view() == missing_keys(
                    m@,
                    full_platform_keys(),
                ),
                (Option::None, Option::None) => true,
                _ => false,
            }),
{
    let mut out: Vec<(String, Option<Vec<String>>)> = Vec::new();
    let n = lock.tools.len();
    let mut i: usize = 0;
    while i < n
        invariant
            n == lock.tools.len(),
            i <= n,
            out.len() == i,
            forall|j: int|
                0 <= j < i ==> (#[trigger] out@[j]).0 == lock.tools@[j].0 && (match (
                    out@[j].1,
                    lock.tools@[j].1.sources,
                ) {
                    (Option::Some(ks), Option::Some(m)) => ks.deep_view() == missing_keys(
                        m@,
                        full_platform_keys(),
                    ),
                    (Option::None, Option::None) => true,
                    _ => false,
                }),
        decreases n - i,
    {
        let entry = &lock.tools[i];
        let missing: Option<Vec<String>> = match &entry.1.sources {
            Some(m) => {
                let mut ks: Vec<String> = Vec::new();
                push_if_missing(&mut ks, m, "linux-amd64");
                push_if_missing(&mut ks, m, "linux-arm64");
                push_if_missing(&mut ks, m, "darwin-amd64");
                push_if_missing(&mut ks, m, "darwin-arm64");
                push_if_missing(&mut ks, m, "windows-amd64");
                push_if_missing(&mut ks, m, "windows-arm64");
                proof {
                    lemma_missing_unfold(m@);
                    assert(ks.deep_view() =~~= missing_keys(m@, full_platform_keys()));
                }
                Some(ks)
            },
            None => None,
        };
        out.push((entry.0.clone(), missing));
        i += 1;
    }
    out
}

/// Append the key when the matrix misses it.
#[verifier::loop_isolation(false)]
fn push_if_missing(ks: &mut Vec<String>, m: &Vec<(String, String)>, key: &str)
    ensures
        (sources_find(m@, key@) is None ==> final(ks).deep_view() == old(ks).deep_view().push(
            key@,
        )),
        (sources_find(m@, key@) is Some ==> *final(ks) == *old(ks)),
{
    let mut found = false;
    let n = m.len();
    let mut i: usize = 0;
    proof {
        assert(m@.skip(0) =~= m@);
    }
    while i < n
        invariant
            n == m.len(),
            i <= n,
            !found ==> sources_find(m@, key@) == sources_find(m@.skip(i as int), key@),
            found ==> sources_find(m@, key@) is Some,
        decreases n - i,
    {
        proof {
            assert(m@.skip(i as int)[0] == m@[i as int]);
            assert(m@.skip(i as int).skip(1) =~= m@.skip(i + 1));
        }
        if !found && text::str_eq(m[i].0.as_str(), key) {
            found = true;
        }
        i += 1;
    }
    proof {
        if !found {
            assert(m@.skip(n as int) =~= Seq::<(String, String)>::empty());
        }
    }
    if !found {
        let ghost before = ks.deep_view();
        ks.push(key.to_owned());
        proof {
            assert(ks.deep_view() =~~= before.push(key@));
        }
    }
}

/// The missing-key list, unfolded over the six keys.
proof fn lemma_missing_unfold(m: Seq<(String, String)>)
    ensures
        missing_keys(m, full_platform_keys()) == (if sources_find(m, "linux-amd64"@) is None {
            seq!["linux-amd64"@]
        } else {
            Seq::empty()
        }) + (if sources_find(m, "linux-arm64"@) is None {
            seq!["linux-arm64"@]
        } else {
            Seq::empty()
        }) + (if sources_find(m, "darwin-amd64"@) is None {
            seq!["darwin-amd64"@]
        } else {
            Seq::empty()
        }) + (if sources_find(m, "darwin-arm64"@) is None {
            seq!["darwin-arm64"@]
        } else {
            Seq::empty()
        }) + (if sources_find(m, "windows-amd64"@) is None {
            seq!["windows-amd64"@]
        } else {
            Seq::empty()
        }) + (if sources_find(m, "windows-arm64"@) is None {
            seq!["windows-arm64"@]
        } else {
            Seq::empty()
        }),
{
    reveal_with_fuel(missing_keys, 8);
    let keys = full_platform_keys();
    assert(keys.skip(1) =~= seq![
        "linux-arm64"@,
        "darwin-amd64"@,
        "darwin-arm64"@,
        "windows-amd64"@,
        "windows-arm64"@,
    ]);
    assert(keys.skip(1).skip(1) =~= seq![
        "darwin-amd64"@,
        "darwin-arm64"@,
        "windows-amd64"@,
        "windows-arm64"@,
    ]);
    assert(keys.skip(1).skip(1).skip(1) =~= seq![
        "darwin-arm64"@,
        "windows-amd64"@,
        "windows-arm64"@,
    ]);
    assert(keys.skip(1).skip(1).skip(1).skip(1) =~= seq!["windows-amd64"@, "windows-arm64"@]);
    assert(keys.skip(1).skip(1).skip(1).skip(1).skip(1) =~= seq!["windows-arm64"@]);
    assert(keys.skip(1).skip(1).skip(1).skip(1).skip(1).skip(1) =~= Seq::<Seq<char>>::empty());
    assert(missing_keys(m, Seq::<Seq<char>>::empty()) =~= Seq::<Seq<char>>::empty());
    let r = missing_keys(m, keys);
    assert(r =~= (if sources_find(m, "linux-amd64"@) is None {
        seq!["linux-amd64"@]
    } else {
        Seq::empty()
    }) + (if sources_find(m, "linux-arm64"@) is None {
        seq!["linux-arm64"@]
    } else {
        Seq::empty()
    }) + (if sources_find(m, "darwin-amd64"@) is None {
        seq!["darwin-amd64"@]
    } else {
        Seq::empty()
    }) + (if sources_find(m, "darwin-arm64"@) is None {
        seq!["darwin-arm64"@]
    } else {
        Seq::empty()
    }) + (if sources_find(m, "windows-amd64"@) is None {
        seq!["windows-amd64"@]
    } else {
        Seq::empty()
    }) + (if sources_find(m, "windows-arm64"@) is None {
        seq!["windows-arm64"@]
    } else {
        Seq::empty()
    }));
}

} // verus!
