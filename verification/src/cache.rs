//! Where the compiled module is cached, so that it is compiled once per
//! machine rather than once per invocation.
//!
//! The cache directory comes from the environment, which the caller reads and
//! hands in. The artifact's file name carries a key that covers everything
//! that would invalidate it (the engine's compatibility hash, the vendored
//! module's version and the compressed module's length); the caller computes
//! that key with a hasher, and this module names the file after it.

use vstd::prelude::*;

verus! {

/// The environment variable that overrides the cache directory.
pub const CACHE_DIR_VAR: &'static str = "APITOOLCHAIN_REST_CACHE_DIR";

/// `base` with the relative path `rel` appended, as `Path::join` does: a
/// separator goes between them unless `base` is empty or already ends in one.
pub open spec fn spec_join_path(base: Seq<char>, rel: Seq<char>) -> Seq<char> {
    if base.len() == 0 {
        rel
    } else if base.last() == '/' {
        base + rel
    } else {
        base + seq!['/'] + rel
    }
}

/// Appends the relative path `rel` to `base`, as `PathBuf::push` does.
pub fn join_path(base: &str, rel: &str) -> (r: String)
    ensures
        r@ == spec_join_path(base@, rel@),
{
    let mut out = String::from_str(base);
    if !base.is_empty() {
        let n = base.unicode_len();
        let last = base.get_char(n - 1);
        if last != '/' {
            proof {
                reveal_strlit("/");
            }
            out.append("/");
        }
    }
    out.append(rel);
    out
}

/// The cache directory: the override when it is set; otherwise, below the
/// platform's cache directory (`$HOME/Library/Caches` on macOS, else
/// `$XDG_CACHE_HOME`, else `$HOME/.cache`), the directory
/// `apitoolchain/rest`. `None` when `HOME` is needed and unset.
pub open spec fn spec_cache_dir(
    override_dir: Option<Seq<char>>,
    macos: bool,
    xdg_cache_home: Option<Seq<char>>,
    home: Option<Seq<char>>,
) -> Option<Seq<char>> {
    match override_dir {
        Some(dir) => Some(dir),
        None => {
            let base = if macos {
                match home {
                    Some(h) => Some(spec_join_path(h, "Library/Caches"@)),
                    None => None,
                }
            } else {
                match xdg_cache_home {
                    Some(x) => Some(x),
                    None => match home {
                        Some(h) => Some(spec_join_path(h, ".cache"@)),
                        None => None,
                    },
                }
            };
            match base {
                Some(b) => Some(spec_join_path(spec_join_path(b, "apitoolchain"@), "rest"@)),
                None => None,
            }
        },
    }
}

/// The characters of an optional string.
pub open spec fn opt_view(s: Option<&str>) -> Option<Seq<char>> {
    match s {
        Some(t) => Some(t@),
        None => None,
    }
}

/// The directory the compiled module is cached in, from the values of
/// `APITOOLCHAIN_REST_CACHE_DIR`, `XDG_CACHE_HOME` and `HOME`, and whether
/// the platform is macOS.
pub fn cache_dir(
    override_dir: Option<&str>,
    macos: bool,
    xdg_cache_home: Option<&str>,
    home: Option<&str>,
) -> (r: Option<String>)
    ensures
        (match r {
            Some(d) => Some(d@),
            None => None,
        }) == spec_cache_dir(opt_view(override_dir), macos, opt_view(xdg_cache_home), opt_view(home)),
        override_dir matches Some(d) ==> r matches Some(out) && out@ == d@,
{
    proof {
        reveal_strlit("Library/Caches");
        reveal_strlit(".cache");
        reveal_strlit("apitoolchain");
        reveal_strlit("rest");
    }
    if let Some(dir) = override_dir {
        return Some(String::from_str(dir));
    }
    let base = if macos {
        match home {
            Some(h) => join_path(h, "Library/Caches"),
            None => {
                return None;
            },
        }
    } else {
        match xdg_cache_home {
            Some(x) => String::from_str(x),
            None => match home {
                Some(h) => join_path(h, ".cache"),
                None => {
                    return None;
                },
            },
        }
    };
    let with_tool = join_path(base.as_str(), "apitoolchain");
    Some(join_path(with_tool.as_str(), "rest"))
}

/// The override, when it is set, is the cache directory on every platform,
/// whatever `XDG_CACHE_HOME` and `HOME` hold.
pub proof fn lemma_cache_dir_override_wins(
    dir: Seq<char>,
    macos: bool,
    xdg_cache_home: Option<Seq<char>>,
    home: Option<Seq<char>>,
)
    ensures
        spec_cache_dir(Some(dir), macos, xdg_cache_home, home) == Some(dir),
{
}

/// Without the override, the cache directory is below the platform's cache
/// directory: `<HOME>/Library/Caches/apitoolchain/rest` on macOS, else
/// `<XDG_CACHE_HOME>/apitoolchain/rest`, else `<HOME>/.cache/apitoolchain/rest`
/// (for directories given without a trailing `/`), and there is none when
/// `HOME` is needed and unset.
pub proof fn lemma_cache_dir_platform(
    macos: bool,
    xdg_cache_home: Option<Seq<char>>,
    home: Option<Seq<char>>,
)
    requires
        xdg_cache_home matches Some(x) ==> x.len() > 0 && x.last() != '/',
        home matches Some(h) ==> h.len() > 0 && h.last() != '/',
    ensures
        spec_cache_dir(None, macos, xdg_cache_home, home) == (if macos {
            match home {
                Some(h) => Some(h + "/Library/Caches/apitoolchain/rest"@),
                None => None::<Seq<char>>,
            }
        } else {
            match xdg_cache_home {
                Some(x) => Some(x + "/apitoolchain/rest"@),
                None => match home {
                    Some(h) => Some(h + "/.cache/apitoolchain/rest"@),
                    None => None::<Seq<char>>,
                },
            }
        }),
{
    reveal_strlit("/Library/Caches/apitoolchain/rest");
    reveal_strlit("/apitoolchain/rest");
    reveal_strlit("/.cache/apitoolchain/rest");
    reveal_strlit("Library/Caches");
    reveal_strlit(".cache");
    reveal_strlit("apitoolchain");
    reveal_strlit("rest");
    if macos {
        if let Some(h) = home {
            let b = spec_join_path(h, "Library/Caches"@);
            assert(b =~= h + "/Library/Caches"@) by { reveal_strlit("/Library/Caches"); }
            assert(b.last() == 's');
            let t = spec_join_path(b, "apitoolchain"@);
            assert(t.last() == 'n');
            assert(spec_join_path(t, "rest"@) =~= h + "/Library/Caches/apitoolchain/rest"@);
        }
    } else {
        match xdg_cache_home {
            Some(x) => {
                let t = spec_join_path(x, "apitoolchain"@);
                assert(t.last() == 'n');
                assert(spec_join_path(t, "rest"@) =~= x + "/apitoolchain/rest"@);
            },
            None => {
                if let Some(h) = home {
                    let b = spec_join_path(h, ".cache"@);
                    assert(b.last() == 'e');
                    let t = spec_join_path(b, "apitoolchain"@);
                    assert(t.last() == 'n');
                    assert(spec_join_path(t, "rest"@) =~= h + "/.cache/apitoolchain/rest"@);
                }
            },
        }
    }
}

/// The lower-case hexadecimal digit for a value below sixteen.
pub open spec fn hex_digit(d: u64) -> char {
    if d < 10 {
        ((d + 48) as u32) as char
    } else {
        ((d + 87) as u32) as char
    }
}

/// The `k`-th of the sixteen hexadecimal digits of `key`, most significant
/// first.
pub open spec fn nibble(key: u64, k: int) -> u64 {
    (key >> ((60 - 4 * k) as u64)) & 15
}

/// `key` as sixteen lower-case hexadecimal digits, zero-padded, as
/// `format!("{:016x}", key)` writes it.
pub open spec fn spec_hex16(key: u64) -> Seq<char> {
    Seq::new(16, |k: int| hex_digit(nibble(key, k)))
}

/// The file name of the artifact cached under `key`.
pub open spec fn spec_artifact_name(key: u64) -> Seq<char> {
    "openapi-"@ + spec_hex16(key) + ".cwasm"@
}

fn hex_str(d: u64) -> (r: &'static str)
    requires
        d < 16,
    ensures
        r@ == seq![hex_digit(d)],
{
    proof {
        reveal_strlit("0");
        reveal_strlit("1");
        reveal_strlit("2");
        reveal_strlit("3");
        reveal_strlit("4");
        reveal_strlit("5");
        reveal_strlit("6");
        reveal_strlit("7");
        reveal_strlit("8");
        reveal_strlit("9");
        reveal_strlit("a");
        reveal_strlit("b");
        reveal_strlit("c");
        reveal_strlit("d");
        reveal_strlit("e");
        reveal_strlit("f");
    }
    match d {
        0 => "0",
        1 => "1",
        2 => "2",
        3 => "3",
        4 => "4",
        5 => "5",
        6 => "6",
        7 => "7",
        8 => "8",
        9 => "9",
        10 => "a",
        11 => "b",
        12 => "c",
        13 => "d",
        14 => "e",
        _ => "f",
    }
}

/// The file name of the artifact cached under `key`:
/// `openapi-<key as 16 hex digits>.cwasm`.
pub fn artifact_name(key: u64) -> (r: String)
    ensures
        r@ == spec_artifact_name(key),
{
    proof {
        reveal_strlit("openapi-");
        reveal_strlit(".cwasm");
    }
    let mut out = String::from_str("openapi-");
    let mut k: u64 = 0;
    while k < 16
        invariant
            k <= 16,
            out@ == "openapi-"@ + spec_hex16(key).take(k as int),
        decreases 16 - k,
    {
        let shift: u64 = 60 - 4 * k;
        let d: u64 = (key >> shift) & 15;
        assert(d < 16) by (bit_vector)
            requires
                d == (key >> shift) & 15,
        ;
        out.append(hex_str(d));
        proof {
            assert(d == nibble(key, k as int));
            assert(spec_hex16(key).take(k + 1) =~= spec_hex16(key).take(k as int).push(
                hex_digit(d),
            ));
        }
        k = k + 1;
    }
    assert(spec_hex16(key).take(16) =~= spec_hex16(key));
    out.append(".cwasm");
    out
}

/// Where the artifact cached under `key` lives, if a cache directory is
/// usable at all.
pub fn artifact_path(cache_dir: Option<&str>, key: u64) -> (r: Option<String>)
    ensures
        (match r {
            Some(p) => Some(p@),
            None => None,
        }) == (match cache_dir {
            Some(d) => Some(spec_join_path(d@, spec_artifact_name(key))),
            None => None,
        }),
{
    match cache_dir {
        Some(dir) => {
            let name = artifact_name(key);
            Some(join_path(dir, name.as_str()))
        },
        None => None,
    }
}

/// Distinct keys name distinct artifacts, so an artifact compiled under one
/// key is never picked up under another.
pub proof fn lemma_artifact_name_injective(a: u64, b: u64)
    requires
        spec_artifact_name(a) == spec_artifact_name(b),
    ensures
        a == b,
{
    reveal_strlit("openapi-");
    reveal_strlit(".cwasm");
    assert forall|k: int| 0 <= k < 16 implies nibble(a, k) == nibble(b, k) by {
        let i = 8 + k;
        assert(spec_artifact_name(a)[i] == spec_artifact_name(b)[i]);
        assert(spec_artifact_name(a)[i] == hex_digit(nibble(a, k)));
        assert(spec_artifact_name(b)[i] == hex_digit(nibble(b, k)));
        assert(nibble(a, k) < 16 && nibble(b, k) < 16) by {
            let sa = (60 - 4 * k) as u64;
            assert((a >> sa) & 15 < 16 && (b >> sa) & 15 < 16) by (bit_vector);
        }
    }
    let n = |k: int| nibble(a, k) == nibble(b, k);
    assert(n(0) && n(1) && n(2) && n(3) && n(4) && n(5) && n(6) && n(7));
    assert(n(8) && n(9) && n(10) && n(11) && n(12) && n(13) && n(14) && n(15));
    assert(a == b) by (bit_vector)
        requires
            (a >> 60u64) & 15 == (b >> 60u64) & 15,
            (a >> 56u64) & 15 == (b >> 56u64) & 15,
            (a >> 52u64) & 15 == (b >> 52u64) & 15,
            (a >> 48u64) & 15 == (b >> 48u64) & 15,
            (a >> 44u64) & 15 == (b >> 44u64) & 15,
            (a >> 40u64) & 15 == (b >> 40u64) & 15,
            (a >> 36u64) & 15 == (b >> 36u64) & 15,
            (a >> 32u64) & 15 == (b >> 32u64) & 15,
            (a >> 28u64) & 15 == (b >> 28u64) & 15,
            (a >> 24u64) & 15 == (b >> 24u64) & 15,
            (a >> 20u64) & 15 == (b >> 20u64) & 15,
            (a >> 16u64) & 15 == (b >> 16u64) & 15,
            (a >> 12u64) & 15 == (b >> 12u64) & 15,
            (a >> 8u64) & 15 == (b >> 8u64) & 15,
            (a >> 4u64) & 15 == (b >> 4u64) & 15,
            (a >> 0u64) & 15 == (b >> 0u64) & 15,
    ;
}

} // verus!
