//! Minimal root trees, planned over a described host.

use agent_bridle_core::rootfs::order::{compare_paths, insert_path, remove_path};
use agent_bridle_core::{
    CacheStep, Caveats, DirEntry, FileStamp, HostFacts, Listing, LoaderTrace, NormalizationPolicy,
    PathFact, PathKind, PathList, RootfsCache, RootfsEntry, RootfsPlan, RootfsPolicy, Scope,
    TraceItem, add_runtime_closure_fallback, build_rootfs_plan, look_up, materialized_at,
    program_candidates, resolve_program, search_dirs, trace_items,
};

fn only(items: &[&str]) -> Scope<String> {
    Scope::only(items.iter().map(|s| s.to_string()).collect())
}

fn strings(items: &[&str]) -> Vec<String> {
    items.iter().map(|s| s.to_string()).collect()
}

fn file(path: &str, canonical: &str) -> PathFact {
    PathFact {
        path: path.to_string(),
        kind: PathKind::File,
        canonical: Some(canonical.to_string()),
    }
}

fn directory(path: &str) -> PathFact {
    PathFact {
        path: path.to_string(),
        kind: PathKind::Directory,
        canonical: Some(path.to_string()),
    }
}

const LDD: &str = "\tlinux-vdso.so.1 (0x00007fff)\n\
    \tlibc.so.6 => /lib/x86_64-linux-gnu/libc.so.6 (0x00007f)\n\
    \tlibgone.so => not found\n\
    \t/lib64/ld-linux-x86-64.so.2 (0x00007f)\n";

/// A host with `cat`, `grep`, `python3`, a shell that is never granted, a C
/// library with its modules, and a standard library.
fn host() -> HostFacts {
    HostFacts {
        search_path: Some("/usr/local/bin::/usr/bin".to_string()),
        paths: vec![
            file("/usr/bin/cat", "/usr/bin/cat"),
            file("/usr/bin/grep", "/usr/bin/grep"),
            file("/usr/bin/sh", "/usr/bin/dash"),
            file("/usr/bin/python3", "/usr/bin/python3.12"),
            file("/lib/x86_64-linux-gnu/libc.so.6", "/usr/lib/x86_64-linux-gnu/libc.so.6"),
            file("/lib64/ld-linux-x86-64.so.2", "/usr/lib/x86_64-linux-gnu/ld-linux-x86-64.so.2"),
            directory("/usr/share"),
            directory("/work"),
            directory("/data"),
            file("/data/one", "/data/one"),
        ],
        listings: vec![
            Listing {
                dir: "/lib/x86_64-linux-gnu".to_string(),
                entries: vec![
                    DirEntry {
                        name: "libnss_files.so.2".to_string(),
                        is_dir: false,
                        canonical: Some("/usr/lib/x86_64-linux-gnu/libnss_files.so.2".to_string()),
                    },
                    DirEntry {
                        name: "libother.so.1".to_string(),
                        is_dir: false,
                        canonical: Some("/usr/lib/x86_64-linux-gnu/libother.so.1".to_string()),
                    },
                ],
            },
            Listing {
                dir: "/usr/lib".to_string(),
                entries: vec![
                    DirEntry {
                        name: "python3.12".to_string(),
                        is_dir: true,
                        canonical: Some("/usr/lib/python3.12".to_string()),
                    },
                    DirEntry {
                        name: "python3-note.txt".to_string(),
                        is_dir: false,
                        canonical: Some("/usr/lib/python3-note.txt".to_string()),
                    },
                    DirEntry {
                        name: "perl".to_string(),
                        is_dir: true,
                        canonical: Some("/usr/lib/perl".to_string()),
                    },
                ],
            },
        ],
        traces: vec![
            LoaderTrace {
                program: "/usr/bin/cat".to_string(),
                output: LDD.to_string(),
            },
            LoaderTrace {
                program: "/usr/bin/python3.12".to_string(),
                output: LDD.to_string(),
            },
        ],
    }
}

fn grant(exec: &[&str]) -> Caveats {
    Caveats {
        exec: only(exec),
        ..Caveats::top()
    }
}

fn plan_for(caveats: &Caveats) -> RootfsPlan {
    build_rootfs_plan(
        caveats,
        &RootfsPolicy::default(),
        &NormalizationPolicy::default(),
        &host(),
    )
    .expect("plan")
}

fn has(plan: &RootfsPlan, src: &str, writable: bool, is_dir: bool) -> bool {
    plan.entries.contains(&RootfsEntry {
        src: src.to_string(),
        writable,
        is_dir,
    })
}

#[test]
fn ambient_exec_is_rejected() {
    let err = build_rootfs_plan(
        &Caveats::top(),
        &RootfsPolicy::default(),
        &NormalizationPolicy::default(),
        &host(),
    )
    .unwrap_err();
    assert!(err.contains("confined exec scope"), "{err}");
}

#[test]
fn a_granted_program_that_is_not_there_is_an_error() {
    let err = build_rootfs_plan(
        &grant(&["cat", "no-such-program"]),
        &RootfsPolicy::default(),
        &NormalizationPolicy::default(),
        &host(),
    )
    .unwrap_err();
    assert_eq!(err, "granted program not found: no-such-program");
}

#[test]
fn a_plan_holds_the_granted_program_and_its_closure_and_no_other_program() {
    let caveats = Caveats {
        exec: only(&["cat"]),
        fs_read: only(&["/work"]),
        fs_write: only(&["/work"]),
        ..Caveats::top()
    };
    let plan = plan_for(&caveats);
    assert!(has(&plan, "/usr/bin/cat", false, false));
    assert!(has(&plan, "/lib/x86_64-linux-gnu/libc.so.6", false, false));
    assert!(has(
        &plan,
        "/usr/lib/x86_64-linux-gnu/ld-linux-x86-64.so.2",
        false,
        false
    ));
    assert!(has(&plan, "/work", true, true), "a write root wins over a read root");
    assert!(!has(&plan, "/work", false, true));
    for tool in ["/curl", "/sh", "/dash", "/bash", "/python3", "/perl", "/grep"] {
        assert!(
            !plan.entries.iter().any(|e| e.src.ends_with(tool)),
            "un-granted tool `{tool}` must NOT be in the minimal rootfs: {:?}",
            plan.entries
        );
    }
    for pair in plan.entries.windows(2) {
        assert_ne!(compare_paths(&pair[0].src, &pair[1].src), Some(false), "in path order");
    }
}

#[test]
fn rootfs_data_paths_are_config_driven() {
    let caveats = grant(&["cat"]);
    let has_usr_share = |p: &RootfsPlan| p.entries.iter().any(|e| e.src == "/usr/share");
    assert!(
        has_usr_share(&plan_for(&caveats)),
        "default plan must include the built-in /usr/share data dir"
    );

    let stripped = RootfsPolicy {
        data_paths: PathList {
            base: vec![],
            extra: vec![],
            replace: true,
        },
        ..RootfsPolicy::default()
    };
    let stripped_plan = build_rootfs_plan(
        &caveats,
        &stripped,
        &NormalizationPolicy::default(),
        &host(),
    )
    .expect("plan");
    assert!(
        !has_usr_share(&stripped_plan),
        "a replace'd empty data_paths must drop /usr/share from the plan"
    );
}

#[test]
fn rootfs_ldd_closure_is_toggleable() {
    let caveats = grant(&["cat"]);
    let has_lib = |p: &RootfsPlan| p.entries.iter().any(|e| e.src.contains("/libc.so"));
    assert!(
        has_lib(&plan_for(&caveats)),
        "default plan must include cat's libc closure"
    );

    let off = NormalizationPolicy {
        ldd_closure: false,
        ..NormalizationPolicy::default()
    };
    let plan =
        build_rootfs_plan(&caveats, &RootfsPolicy::default(), &off, &host()).expect("plan");
    assert!(
        !has_lib(&plan),
        "disabling ldd_closure must drop the .so closure from the plan"
    );
}

#[test]
fn a_granted_python_brings_its_standard_library_and_no_program() {
    let plan = plan_for(&grant(&["python3"]));
    assert!(has(&plan, "/usr/lib/python3.12", false, true));
    assert!(has(&plan, "/usr/bin/python3.12", false, false));
    assert!(!plan.entries.iter().any(|e| e.src == "/usr/lib/perl"));
    assert!(!plan.entries.iter().any(|e| e.src == "/usr/lib/python3-note.txt"));
    for e in plan.entries.iter().filter(|e| !e.is_dir && e.src.starts_with("/usr/bin")) {
        assert_eq!(e.src, "/usr/bin/python3.12");
    }
    let off = NormalizationPolicy {
        python_closure_fallback: false,
        ..NormalizationPolicy::default()
    };
    let bare = build_rootfs_plan(&grant(&["python3"]), &RootfsPolicy::default(), &off, &host())
        .expect("plan");
    assert!(!bare.entries.iter().any(|e| e.src == "/usr/lib/python3.12"));
}

#[test]
fn the_modules_beside_the_c_library_are_added() {
    let plan = plan_for(&grant(&["cat"]));
    assert!(has(
        &plan,
        "/usr/lib/x86_64-linux-gnu/libnss_files.so.2",
        false,
        false
    ));
    assert!(!plan.entries.iter().any(|e| e.src.contains("libother")));
    let off = NormalizationPolicy {
        nss_closure_fallback: false,
        ..NormalizationPolicy::default()
    };
    let bare = build_rootfs_plan(&grant(&["cat"]), &RootfsPolicy::default(), &off, &host())
        .expect("plan");
    assert!(!bare.entries.iter().any(|e| e.src.contains("libnss_")));
}

#[test]
fn the_fallback_leaves_what_was_there() {
    let mut files = strings(&["/usr/bin/cat"]);
    let mut dirs = strings(&["/usr/share"]);
    add_runtime_closure_fallback(&strings(&["cat"]), &mut files, &mut dirs, true, true, &host());
    assert_eq!(files, strings(&["/usr/bin/cat"]));
    assert_eq!(dirs, strings(&["/usr/share"]));
}

#[test]
fn granted_roots_that_are_files_are_files_of_the_plan() {
    let caveats = Caveats {
        exec: only(&["cat"]),
        fs_read: only(&["/data", "/data/one", "/absent"]),
        fs_write: only(&["/data/one"]),
        ..Caveats::top()
    };
    let plan = plan_for(&caveats);
    assert!(has(&plan, "/data", false, true));
    assert!(has(&plan, "/data/one", true, false));
    assert!(!has(&plan, "/data/one", false, false));
    assert!(!plan.entries.iter().any(|e| e.src == "/absent"));
    let to_read = Caveats {
        fs_read: only(&["/data/one"]),
        fs_write: only(&["/absent"]),
        ..grant(&["cat"])
    };
    assert!(has(&plan_for(&to_read), "/data/one", false, false));
}

#[test]
fn a_program_that_is_granted_for_writing_can_be_written() {
    let caveats = Caveats {
        fs_write: only(&["/usr/bin/cat"]),
        ..grant(&["cat", "grep"])
    };
    let plan = plan_for(&caveats);
    assert!(has(&plan, "/usr/bin/cat", true, false));
    assert!(!has(&plan, "/usr/bin/cat", false, false));
    assert!(has(&plan, "/usr/bin/grep", false, false));
}

#[test]
fn a_file_that_is_also_a_directory_stands_once() {
    let mut odd = host();
    odd.listings[0].entries.push(DirEntry {
        name: "libnss_dir.so".to_string(),
        is_dir: true,
        canonical: Some("/usr/lib/libnss_dir.so".to_string()),
    });
    odd.listings[0].entries.push(DirEntry {
        name: "libnss_both.so".to_string(),
        is_dir: false,
        canonical: Some("/usr/share".to_string()),
    });
    let plan = build_rootfs_plan(
        &grant(&["cat"]),
        &RootfsPolicy::default(),
        &NormalizationPolicy::default(),
        &odd,
    )
    .expect("plan");
    assert!(!plan.entries.iter().any(|e| e.src.contains("libnss_dir")));
    assert_eq!(plan.entries.iter().filter(|e| e.src == "/usr/share").count(), 1);
    assert!(has(&plan, "/usr/share", false, true));
}

#[test]
fn a_program_is_found_on_the_search_path_or_where_it_says() {
    let fallback = strings(&["/bin"]);
    assert_eq!(
        search_dirs(&Some("/a::/b".to_string()), &fallback),
        strings(&["/a", "/b"])
    );
    assert_eq!(search_dirs(&Some("::".to_string()), &fallback), fallback);
    assert_eq!(search_dirs(&None, &fallback), fallback);
    assert_eq!(
        program_candidates("cat", &strings(&["/a", "/b"])),
        strings(&["/a/cat", "/b/cat"])
    );
    assert_eq!(
        program_candidates("./cat", &strings(&["/a", "/b"])),
        strings(&["./cat"])
    );
    assert_eq!(
        resolve_program("sh", &fallback, &host()),
        Some("/usr/bin/dash".to_string())
    );
    assert_eq!(resolve_program("/work", &fallback, &host()), None);
    assert!(look_up(&host().paths, "/nowhere").is_none());
}

#[test]
fn a_loader_trace_names_libraries_and_the_loader() {
    assert_eq!(
        trace_items(LDD),
        vec![
            TraceItem::Library("/lib/x86_64-linux-gnu/libc.so.6".to_string()),
            TraceItem::Loader("/lib64/ld-linux-x86-64.so.2".to_string()),
        ]
    );
    assert_eq!(trace_items("\tnot a dynamic executable\n"), vec![]);
}

#[test]
fn paths_order_by_their_parts() {
    assert_eq!(compare_paths("/a/b", "/a-b"), Some(true));
    assert_eq!(compare_paths("/a-b", "/a/b"), Some(false));
    assert_eq!(compare_paths("/a//b/", "/a/b"), None);
    let mut list = Vec::new();
    insert_path(&mut list, "/b".to_string());
    insert_path(&mut list, "/a/b".to_string());
    insert_path(&mut list, "/a-b".to_string());
    insert_path(&mut list, "/a/./b".to_string());
    assert_eq!(list, strings(&["/a/b", "/a-b", "/b"]));
    remove_path(&mut list, "/a//b");
    assert_eq!(list, strings(&["/a-b", "/b"]));
}

fn stamps(plan: &RootfsPlan) -> Vec<Option<FileStamp>> {
    plan.entries
        .iter()
        .map(|e| {
            if e.is_dir {
                None
            } else {
                Some(FileStamp {
                    len: 10,
                    modified: Some(1_700_000_000_000_000_000),
                })
            }
        })
        .collect()
}

#[test]
fn a_cache_key_is_stable_and_follows_the_plan() {
    let cat = plan_for(&grant(&["cat"]));
    let again = plan_for(&grant(&["cat"]));
    let grep = plan_for(&grant(&["grep"]));
    let key = RootfsCache::key(&cat, &stamps(&cat));
    assert_eq!(key, RootfsCache::key(&again, &stamps(&again)));
    assert_ne!(key, RootfsCache::key(&grep, &stamps(&grep)));
    assert_eq!(key.len(), 64, "hex of a 32-byte content id");
    assert!(key.chars().all(|c| c.is_ascii_digit() || ('a'..='f').contains(&c)));
    let mut touched = stamps(&cat);
    for stamp in touched.iter_mut().flatten() {
        stamp.modified = Some(1);
    }
    assert_ne!(key, RootfsCache::key(&cat, &touched), "a changed file changes the key");
}

#[test]
fn a_key_tells_access_sort_and_files_apart() {
    let one = |src: &str, writable: bool, is_dir: bool| RootfsPlan {
        entries: vec![RootfsEntry {
            src: src.to_string(),
            writable,
            is_dir,
        }],
    };
    let stamp = |len: u64, modified: Option<u128>| vec![Some(FileStamp { len, modified })];
    let keys = [
        RootfsCache::key(&one("/a", false, false), &vec![None]),
        RootfsCache::key(&one("/a", true, false), &vec![None]),
        RootfsCache::key(&one("/a", false, true), &vec![None]),
        RootfsCache::key(&one("/a", true, true), &vec![None]),
        RootfsCache::key(&one("/b", false, false), &vec![None]),
        RootfsCache::key(&one("/a", false, false), &stamp(1, None)),
        RootfsCache::key(&one("/a", false, false), &stamp(12, None)),
        RootfsCache::key(&one("/a", false, false), &stamp(1, Some(2))),
        RootfsCache::key(&one("/a", false, false), &stamp(1, Some(3))),
    ];
    for (i, a) in keys.iter().enumerate() {
        for b in &keys[i + 1..] {
            assert_ne!(a, b);
        }
    }
    assert_eq!(
        RootfsCache::key(&one("/a", false, true), &vec![None]),
        RootfsCache::key(&one("/a", false, true), &stamp(1, Some(2))),
        "what is in a directory does not matter"
    );
}

#[test]
fn the_key_of_an_empty_plan_is_the_digest_of_nothing() {
    let empty = RootfsPlan { entries: vec![] };
    assert_eq!(
        RootfsCache::key(&empty, &vec![]),
        "af1349b9f5f9a1a6a0404dea36dcc9499bcb25c9adc112b7cc9a93cae41f3262"
    );
}

#[test]
fn a_complete_tree_is_reused_and_an_unfinished_one_is_cleared() {
    assert_eq!(RootfsCache::step(true, true), CacheStep::Reuse);
    assert_eq!(RootfsCache::step(false, true), CacheStep::ClearAndBuild);
    assert_eq!(RootfsCache::step(false, false), CacheStep::Build);
    let cache = RootfsCache::new("/var/cache/trees".to_string());
    assert_eq!(cache.place_of("abc"), "/var/cache/trees/abc");
    assert_eq!(materialized_at("/tree", "/usr/bin/cat"), "/tree/usr/bin/cat");
}

#[test]
fn no_path_of_a_plan_is_exposed_twice() {
    // The same directory is runtime data, a root to read and a root to write.
    let caveats = Caveats {
        fs_read: only(&["/usr/share", "/work", "/data/one"]),
        fs_write: only(&["/usr/share", "/data/one"]),
        ..grant(&["cat", "/usr/bin/cat"])
    };
    let plan = plan_for(&caveats);
    for (i, a) in plan.entries.iter().enumerate() {
        for b in &plan.entries[i + 1..] {
            assert!(a.src != b.src, "{} twice", a.src);
        }
    }
    assert!(has(&plan, "/usr/share", true, true));
    assert!(!has(&plan, "/usr/share", false, true));
    assert!(has(&plan, "/work", false, true));
    assert!(has(&plan, "/data/one", true, false));
    assert!(has(&plan, "/usr/bin/cat", false, false));
}
