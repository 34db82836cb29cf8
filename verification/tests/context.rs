use agent_bridle_core::{
    entries_to_resolve, open_failure, plan_open, CanonicalWalk, Caveats, CountBound, Gate,
    OpenPlan, PathLookup, ResolvedRoot, SandboxKind, Scope, ToolContext, WalkStep,
};

fn only(items: &[&str]) -> Scope<String> {
    Scope::only(items.iter().map(|s| s.to_string()).collect())
}

fn ctx(granted: Caveats) -> ToolContext {
    Gate::new(0)
        .authorize(&Caveats::top(), &granted)
        .expect("authorize")
}

#[test]
fn check_exec_allows_in_scope_denies_out_of_scope() {
    let cx = ctx(Caveats {
        exec: only(&["echo"]),
        ..Caveats::top()
    });
    assert!(cx.check_exec("echo").is_ok());
    assert!(cx.check_exec("rm").is_err());
}

#[test]
fn check_exec_bare_name_grant_matches_resolved_paths() {
    let cx = ctx(Caveats {
        exec: only(&["git"]),
        ..Caveats::top()
    });
    assert!(cx.check_exec("git").is_ok());
    assert!(cx.check_exec("/usr/bin/git").is_ok());
    assert!(cx.check_exec("/opt/homebrew/bin/git").is_ok());
}

#[test]
fn check_exec_full_path_grant_pins_exactly() {
    let cx = ctx(Caveats {
        exec: only(&["/usr/bin/git"]),
        ..Caveats::top()
    });
    assert!(cx.check_exec("/usr/bin/git").is_ok());
    assert!(cx.check_exec("/opt/homebrew/bin/git").is_err());
    assert!(cx.check_exec("git").is_err());
}

#[test]
fn check_exec_basename_deny_preserved() {
    let cx = ctx(Caveats {
        exec: only(&["echo"]),
        ..Caveats::top()
    });
    assert!(cx.check_exec("/bin/rm").is_err());
    assert!(cx.check_exec("/bin/echo").is_ok());
}

#[test]
fn check_exec_all_allows_anything() {
    let cx = ctx(Caveats {
        exec: Scope::All,
        ..Caveats::top()
    });
    assert!(cx.check_exec("git").is_ok());
    assert!(cx.check_exec("/usr/bin/anything").is_ok());
    assert!(cx.check_exec("/bin/rm").is_ok());
}

#[test]
fn check_net_allows_in_scope_denies_out_of_scope() {
    let cx = ctx(Caveats {
        net: only(&["example.com"]),
        ..Caveats::top()
    });
    assert!(cx.check_net("example.com").is_ok());
    assert!(cx.check_net("evil.test").is_err());
}

#[test]
fn caveats_and_sandbox_kind_are_exposed() {
    let cx = ctx(Caveats {
        max_calls: CountBound::AtMost(3),
        ..Caveats::top()
    });
    assert_eq!(cx.caveats().max_calls, CountBound::AtMost(3));
    assert_eq!(cx.sandbox_kind(), SandboxKind::Unconfined);
}

#[test]
fn refusals_quote_what_was_asked() {
    let cx = ctx(Caveats {
        exec: Scope::none(),
        net: Scope::none(),
        ..Caveats::top()
    });
    assert_eq!(
        cx.check_exec("a\"b\n").unwrap_err().message(),
        "denied: exec of \"a\\\"b\\n\" is not within the granted authority"
    );
    assert_eq!(
        cx.check_net("h").unwrap_err().message(),
        "denied: network access to \"h\" is not within the granted authority"
    );
}

// ── Paths ───────────────────────────────────────────────────────────────────

fn root(entry: &str, canonical: Option<&str>) -> ResolvedRoot {
    ResolvedRoot {
        entry: entry.to_string(),
        canonical: canonical.map(|c| c.to_string()),
    }
}

fn lookup(resolved: Result<&str, &str>, roots: Vec<ResolvedRoot>) -> PathLookup {
    PathLookup {
        resolved: match resolved {
            Ok(s) => Ok(s.to_string()),
            Err(e) => Err(e.to_string()),
        },
        roots,
    }
}

fn writer(entry: &str) -> ToolContext {
    ctx(Caveats {
        fs_write: only(&[entry]),
        ..Caveats::top()
    })
}

#[test]
fn a_path_passes_below_the_location_of_a_granted_root() {
    let cx = writer("/ws");
    let roots = || vec![root("/ws", Some("/data/ws"))];
    assert!(cx
        .check_path_write("/ws/new.txt", &lookup(Ok("/data/ws/new.txt"), roots()))
        .is_ok());
    assert!(cx
        .check_path_write("/ws", &lookup(Ok("/data/ws"), roots()))
        .is_ok());
    // A shared beginning of a name is not containment.
    let err = cx
        .check_path_write("/ws2/x", &lookup(Ok("/data/ws2/x"), roots()))
        .unwrap_err();
    assert_eq!(
        err.message(),
        "denied: write of /ws2/x (resolved /data/ws2/x) is not within the granted fs_write scope"
    );
    // Neither does a link that leads out pass, nor a path that climbs out.
    assert!(cx
        .check_path_write("/ws/escape/loot", &lookup(Ok("/data/secret/loot"), roots()))
        .is_err());
    // The read axis is unrestricted here.
    assert!(cx
        .check_path_read("/etc/shadow", &lookup(Err("unasked"), vec![]))
        .is_ok());
}

#[test]
fn what_has_no_location_authorizes_nothing() {
    let cx = writer("/ws");
    let err = cx
        .check_path_write("/ws/x", &lookup(Err("gone"), vec![root("/ws", Some("/ws"))]))
        .unwrap_err();
    assert_eq!(
        err.message(),
        "denied: write of \"/ws/x\" denied: cannot canonicalize (gone)"
    );
    assert!(cx
        .check_path_write("/ws/x", &lookup(Ok("/ws/x"), vec![root("/ws", None)]))
        .is_err());
    // A root that was not granted does not count.
    assert!(cx
        .check_path_write("/etc/x", &lookup(Ok("/etc/x"), vec![root("/etc", Some("/etc"))]))
        .is_err());
}

#[test]
fn an_open_is_planned_below_the_root() {
    let axis = only(&["/ws"]);
    let at = lookup(Ok("/data/ws/a/b"), vec![root("/ws", Some("/data/ws"))]);
    assert_eq!(
        plan_open(&axis, "/ws/a/b", "read", &at).unwrap(),
        OpenPlan::Beneath {
            base: "/data/ws".to_string(),
            rel: "a/b".to_string()
        }
    );
    assert_eq!(
        plan_open(&Scope::All, "/any", "read", &lookup(Err("x"), vec![])).unwrap(),
        OpenPlan::Plain
    );
    assert_eq!(entries_to_resolve(&Scope::All), None);
    assert_eq!(entries_to_resolve(&axis), Some(vec!["/ws".to_string()]));
    assert_eq!(
        open_failure("read", "/ws/a", true, "loop").message(),
        "denied: read of /ws/a escaped the granted fs_read scope during resolution (loop)"
    );
    assert_eq!(
        open_failure("read", "/ws/a", false, "busy").message(),
        "tool execution failed: busy"
    );
}

#[test]
fn a_missing_path_is_located_below_its_deepest_ancestor() {
    let mut walk = CanonicalWalk::start("/ws//a/b");
    assert_eq!(walk.existing_path(), "/ws//a/b");
    assert_eq!(walk.step(false), WalkStep::Probe);
    assert_eq!(walk.existing_path(), "/ws/a");
    assert_eq!(walk.step(false), WalkStep::Probe);
    assert_eq!(walk.existing_path(), "/ws");
    assert_eq!(walk.step(true), WalkStep::Locate);
    assert_eq!(walk.finish("/data/ws"), "/data/ws/a/b");
}

#[test]
fn a_walk_ends_without_a_location() {
    let mut rootless = CanonicalWalk::start("a");
    assert_eq!(rootless.step(false), WalkStep::Probe);
    assert_eq!(rootless.existing_path(), "");
    let end = rootless.step(false);
    assert_eq!(end, WalkStep::NoAncestor);
    assert_eq!(end.refusal(), Some("no existing ancestor to canonicalize"));

    let mut climbing = CanonicalWalk::start("/gone/..");
    let end = climbing.step(false);
    assert_eq!(end, WalkStep::NoName);
    assert_eq!(
        end.refusal(),
        Some("path has no resolvable existing ancestor")
    );
    assert_eq!(CanonicalWalk::start("/").step(false), WalkStep::NoAncestor);
    assert_eq!(WalkStep::Probe.refusal(), None);
}
