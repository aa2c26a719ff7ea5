//! The WASI environment that `api rest` hands to the guest: its argv, its
//! environment and its single preopened directory.
//!
//! The host's own state (working directory, environment) is read by the
//! caller and handed in as plain values, so the policy here is pure.
//!
//! The preopen maps host `/` to guest `/`. Go resolves paths in the guest
//! before WASI sees them (joining against `$PWD`, clamping `..` at the root,
//! then stripping the longest matching preopen), so any narrower mapping makes
//! absolute paths, `..` and relative `$ref` chains silently open the wrong
//! file. With the two namespaces identical there is nothing to translate. The
//! sandbox buys portability here, not confinement.

use vstd::prelude::*;

use crate::text::{str_eq, string_views};

verus! {

/// The program name the guest sees as `os.Args[0]`. Upstream's root command
/// takes its command path from its `Use` field, so this does not change the
/// help text; it keeps `os.Args[0]` honest.
pub const ARGV0: &'static str = "openapi";

/// An environment variable of the host: its name and value, each `None` when
/// it is not valid UTF-8.
pub type HostVar = (Option<String>, Option<String>);

/// What the guest is configured with.
#[derive(Debug)]
pub struct Plan {
    /// argv, including argv[0].
    pub argv: Vec<String>,
    /// Environment pairs, with `PWD` set to the host's working directory.
    pub env: Vec<(String, String)>,
    /// `(host_path, guest_path)` of the single preopen.
    pub preopen: (String, String),
}

/// The characters of each pair.
pub open spec fn pair_views(v: Seq<(String, String)>) -> Seq<(Seq<char>, Seq<char>)> {
    v.map_values(|p: (String, String)| (p.0@, p.1@))
}

/// The host variable as the guest gets it: only when both name and value are
/// UTF-8, and never the host's own `PWD`.
pub open spec fn passed_var(var: HostVar) -> Option<(Seq<char>, Seq<char>)> {
    match var {
        (Some(k), Some(v)) => if k@ != "PWD"@ {
            Some((k@, v@))
        } else {
            None
        },
        _ => None,
    }
}

/// The host variables that the guest inherits, in the host's order.
pub open spec fn passed_vars(host: Seq<HostVar>) -> Seq<(Seq<char>, Seq<char>)>
    decreases host.len(),
{
    if host.len() == 0 {
        seq![]
    } else {
        let prev = passed_vars(host.drop_last());
        match passed_var(host.last()) {
            Some(p) => prev.push(p),
            None => prev,
        }
    }
}

/// The guest's environment: the inherited variables, then `PWD` set to the
/// host's working directory.
pub open spec fn spec_plan_env(host: Seq<HostVar>, cwd: Seq<char>) -> Seq<(Seq<char>, Seq<char>)> {
    passed_vars(host).push(("PWD"@, cwd))
}

/// Builds the guest environment from the user's arguments, the host's
/// working directory and the host's environment.
///
/// `PWD` is set here: Go reads it to resolve relative paths, and falls back to
/// whatever the first preopen happens to be when it is unset. An inherited
/// `PWD` is dropped, not merged. Variables that are not UTF-8 are skipped
/// rather than fatal: one odd variable must not take down the command.
pub fn plan(args: &[String], cwd: &str, host_env: &[HostVar]) -> (r: Plan)
    ensures
        string_views(r.argv@) == seq![ARGV0@] + string_views(args@),
        pair_views(r.env@) == spec_plan_env(host_env@, cwd@),
        r.preopen.0@ == "/"@,
        r.preopen.1@ == "/"@,
{
    let mut argv: Vec<String> = Vec::new();
    argv.push(String::from_str(ARGV0));
    let mut i: usize = 0;
    while i < args.len()
        invariant
            i <= args@.len(),
            string_views(argv@) == seq![ARGV0@] + string_views(args@.take(i as int)),
        decreases args@.len() - i,
    {
        let ghost before = argv@;
        argv.push(args[i].clone());
        proof {
            assert(args@.take(i + 1) =~= args@.take(i as int).push(args@[i as int]));
            assert(string_views(argv@) =~= string_views(before).push(args@[i as int]@));
            assert(string_views(args@.take(i + 1)) =~= string_views(args@.take(i as int)).push(
                args@[i as int]@,
            ));
        }
        i = i + 1;
    }
    assert(args@.take(args@.len() as int) =~= args@);
    let mut env: Vec<(String, String)> = Vec::new();
    let mut j: usize = 0;
    proof {
        reveal_strlit("PWD");
    }
    while j < host_env.len()
        invariant
            j <= host_env@.len(),
            pair_views(env@) == passed_vars(host_env@.take(j as int)),
        decreases host_env@.len() - j,
    {
        let ghost before = env@;
        let var = &host_env[j];
        proof {
            reveal_strlit("PWD");
            assert(host_env@.take(j + 1).drop_last() =~= host_env@.take(j as int));
            assert(host_env@.take(j + 1).last() == *var);
        }
        match var {
            (Some(k), Some(v)) => {
                if !str_eq(k.as_str(), "PWD") {
                    env.push((k.clone(), v.clone()));
                    assert(pair_views(env@) =~= pair_views(before).push((k@, v@)));
                }
            },
            _ => {},
        }
        j = j + 1;
    }
    assert(host_env@.take(host_env@.len() as int) =~= host_env@);
    let ghost inherited = env@;
    env.push((String::from_str("PWD"), String::from_str(cwd)));
    assert(pair_views(env@) =~= pair_views(inherited).push(("PWD"@, cwd@)));
    Plan { argv, env, preopen: (String::from_str("/"), String::from_str("/")) }
}

/// The guest sees exactly one `PWD`, the last variable, and it is the host's
/// working directory.
pub proof fn lemma_plan_has_one_pwd(host: Seq<HostVar>, cwd: Seq<char>)
    ensures
        ({
            let env = spec_plan_env(host, cwd);
            &&& env.len() > 0
            &&& env.last() == ("PWD"@, cwd)
            &&& forall|k: int| 0 <= k < env.len() - 1 ==> (#[trigger] env[k]).0 != "PWD"@
        }),
{
    lemma_passed_vars_no_pwd(host);
}

proof fn lemma_passed_vars_no_pwd(host: Seq<HostVar>)
    ensures
        forall|k: int|
            0 <= k < passed_vars(host).len() ==> (#[trigger] passed_vars(host)[k]).0 != "PWD"@,
    decreases host.len(),
{
    if host.len() > 0 {
        let prev = passed_vars(host.drop_last());
        lemma_passed_vars_no_pwd(host.drop_last());
        assert forall|k: int|
            0 <= k < passed_vars(host).len() implies (#[trigger] passed_vars(host)[k]).0
            != "PWD"@ by {
            if k < prev.len() {
                assert(passed_vars(host)[k] == prev[k]);
            }
        }
    }
}

/// A host variable that is UTF-8 and is not `PWD` reaches the guest
/// unchanged.
pub proof fn lemma_plan_passes_utf8_vars(host: Seq<HostVar>, cwd: Seq<char>, i: int)
    requires
        0 <= i < host.len(),
        passed_var(host[i]) is Some,
    ensures
        spec_plan_env(host, cwd).contains(passed_var(host[i])->0),
    decreases host.len(),
{
    let env = spec_plan_env(host, cwd);
    let prev = host.drop_last();
    if i == host.len() - 1 {
        assert(env[passed_vars(prev).len() as int] == passed_var(host[i])->0);
    } else {
        lemma_plan_passes_utf8_vars(prev, cwd, i);
        assert(prev[i] == host[i]);
        let inner = spec_plan_env(prev, cwd);
        let m = choose|m: int| 0 <= m < inner.len() && inner[m] == passed_var(host[i])->0;
        assert(m < passed_vars(prev).len()) by {
            lemma_passed_vars_no_pwd(prev);
            if m == passed_vars(prev).len() {
                assert(inner[m].0 == "PWD"@);
            }
        }
        assert(env[m] == inner[m]);
    }
}

/// Every host variable whose name and value are UTF-8 reaches the guest
/// unchanged unless its name is exactly `PWD`; names that merely contain or
/// end in `PWD`, such as `OLDPWD`, are passed like any other.
pub proof fn lemma_plan_keeps_all_but_pwd(host: Seq<HostVar>, cwd: Seq<char>, i: int)
    requires
        0 <= i < host.len(),
        host[i] matches (Some(k), Some(v)) && k@ != "PWD"@,
    ensures
        host[i] matches (Some(k), Some(v)) && spec_plan_env(host, cwd).contains((k@, v@)),
{
    lemma_plan_passes_utf8_vars(host, cwd, i);
}

/// The only host variable the guest does not get is one whose name or value
/// is not UTF-8, or whose name is exactly `PWD`.
pub proof fn lemma_passed_var_drops_only_pwd(var: HostVar)
    ensures
        passed_var(var) is Some <==> (var matches (Some(k), Some(v)) && k@ != "PWD"@),
        var matches (Some(k), Some(v)) ==> (k@ != "PWD"@ ==> passed_var(var) == Some((k@, v@))),
{
}

} // verus!
