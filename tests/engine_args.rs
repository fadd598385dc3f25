use trm::args::{
    current_history_filter, current_purge_cutoff, history_filter, purge_cutoff, Action, Args,
    Commands, CutoffError,
};
use trm::config::{choose_trash_dir, confirms, get_default_dir, get_log_file, is_yes};
use trm::engine::{
    recover_all_files, recover_files, rename_fallback, restore_route, Batch, Fallback,
};
use trm::path::{mirror, PathError};
use trm::record::{Filter, OpType, Timestamp};

fn args() -> Args {
    Args {
        command: None,
        files: vec![],
        verbose: false,
        debug: false,
        undo: false,
        all: false,
        list: false,
        dir: "/tmp/trm-u".to_string(),
    }
}

#[test]
fn round_trip_routes_and_records() {
    let root = "/tmp/trm-u";
    let original = "/home/u/a.txt";
    let dest = mirror(root, original);
    let mut trash = Batch::new();
    trash.record(original.to_string(), dest.clone());
    let t = trash.finish(OpType::TRASH, Timestamp { secs: 10, nanos: 0 }).unwrap();

    let route = restore_route(root, &dest, true).unwrap();
    assert_eq!(route.original, original);
    assert_eq!(route.trashed, dest);
    let mut restore = Batch::new();
    restore.record(route.trashed, route.original);
    let r = restore.finish(OpType::RESTORE, Timestamp { secs: 11, nanos: 0 }).unwrap();
    assert_eq!(r.src, t.dst);
    assert_eq!(r.dst, t.src);
}

#[test]
fn empty_batch_is_not_logged() {
    assert_eq!(Batch::new().finish(OpType::TRASH, Timestamp { secs: 1, nanos: 0 }), None);
    assert_eq!(Batch::new().finish_now(OpType::RESTORE), None);
}

#[test]
fn finish_now_stamps_current_time() {
    let mut b = Batch::new();
    b.record("/a".to_string(), "/t/a".to_string());
    let rec = b.finish_now(OpType::TRASH).unwrap();
    assert!(rec.moved_time.secs > 1_600_000_000);
    assert_eq!(rec.src, vec!["/a".to_string()]);
    assert_eq!(rec.operation, OpType::TRASH);
}

#[test]
fn restore_route_by_original_path() {
    let route = restore_route("/t", "/home/u/a.txt", false).unwrap();
    assert_eq!(route.trashed, "/t/home/u/a.txt");
    assert_eq!(route.original, "/home/u/a.txt");
}

#[test]
fn restore_route_outside_root_fails() {
    assert_eq!(restore_route("/t", "/home/u/a.txt", true).err(), Some(PathError::OutsideRoot));
}

#[test]
fn recover_files_in_order() {
    let files = vec!["/t/a/b".to_string(), "/t/c".to_string()];
    let routes = recover_files("/t", &files, true).unwrap();
    assert_eq!(routes.len(), 2);
    assert_eq!(routes[0].original, "/a/b");
    assert_eq!(routes[0].trashed, "/t/a/b");
    assert_eq!(routes[1].original, "/c");
}

#[test]
fn recover_files_outside_root_fails_batch() {
    let files = vec!["/t/a/b".to_string(), "/x/y".to_string(), "/t/c".to_string()];
    assert_eq!(recover_files("/t", &files, true).err(), Some(PathError::OutsideRoot));
}

#[test]
fn trash_root_is_never_restored_to_fs_root() {
    assert_eq!(restore_route("/t", "/t", true).err(), Some(PathError::FilesystemRoot));
    assert_eq!(restore_route("/t", "/t/", true).err(), Some(PathError::FilesystemRoot));
    assert_eq!(restore_route("/t", "/", false).err(), Some(PathError::FilesystemRoot));
    let files = vec!["/t/a".to_string(), "/t".to_string()];
    assert_eq!(recover_files("/t", &files, true).err(), Some(PathError::FilesystemRoot));
}

#[test]
fn recover_all_leaves_out_root() {
    let entries = vec!["/t".to_string(), "/t/a".to_string(), "/t/a/b.txt".to_string()];
    let routes = recover_all_files("/t", &entries).unwrap();
    assert_eq!(routes.len(), 2);
    assert_eq!(routes[0].trashed, "/t/a");
    assert_eq!(routes[0].original, "/a");
    assert_eq!(routes[1].original, "/a/b.txt");
    let outside = vec!["/t".to_string(), "/u/a".to_string()];
    assert_eq!(recover_all_files("/t", &outside).err(), Some(PathError::OutsideRoot));
}

#[test]
fn fallback_only_across_devices() {
    assert_eq!(rename_fallback(false, true), Fallback::Fail);
    assert_eq!(rename_fallback(false, false), Fallback::Fail);
    assert_eq!(rename_fallback(true, true), Fallback::CopyFile);
    assert_eq!(rename_fallback(true, false), Fallback::CopyTree);
}

#[test]
fn validate_accepts_plain_trash() {
    let mut a = args();
    a.files = vec!["x".to_string()];
    assert_eq!(a.validate(), Ok(()));
    assert_eq!(a.action(), Action::Trash);
}

#[test]
fn validate_refuses_files_with_list() {
    let mut a = args();
    a.files = vec!["x".to_string()];
    a.list = true;
    assert_eq!(a.validate(), Err("Files must be provided".to_string()));
}

#[test]
fn validate_refuses_files_with_subcommand() {
    let mut a = args();
    a.files = vec!["x".to_string()];
    a.command = Some(Commands::Purge { before: None, quiet: false, all: true });
    assert_eq!(a.validate(), Err("Files must be provided".to_string()));
}

#[test]
fn validate_refuses_list_undo_all() {
    let mut a = args();
    a.list = true;
    a.undo = true;
    a.all = true;
    assert_eq!(
        a.validate(),
        Err("Cannot combine --list, --undo and --all. If you want to restore all files in trash, use --undo and --all".to_string())
    );
}

#[test]
fn actions_follow_flag_precedence() {
    let mut a = args();
    a.list = true;
    a.undo = true;
    assert_eq!(a.action(), Action::ListAndRestore);
    a.undo = false;
    a.all = true;
    assert_eq!(a.action(), Action::ListAll);
    a.list = false;
    a.undo = true;
    assert_eq!(a.action(), Action::RestoreAll);
    a.all = false;
    assert_eq!(a.action(), Action::Restore);
    a.undo = false;
    a.list = true;
    assert_eq!(a.action(), Action::List);
    a.list = false;
    a.command = Some(Commands::History { all: true, before: None, path: String::new() });
    assert_eq!(a.action(), Action::History);
    a.command = Some(Commands::Purge { before: Some(3), quiet: true, all: false });
    assert_eq!(a.action(), Action::Purge);
}

#[test]
fn history_filters() {
    let now = Timestamp { secs: 1000, nanos: 5 };
    assert_eq!(history_filter(true, Some(1), "p", "/cwd", now), Some(Filter::All));
    assert_eq!(
        history_filter(false, Some(60), "p", "/cwd", now),
        Some(Filter::Before(Timestamp { secs: 940, nanos: 5 }))
    );
    assert_eq!(
        history_filter(false, None, "/home/u", "/cwd", now),
        Some(Filter::Prefix("/home/u".to_string()))
    );
    assert_eq!(history_filter(false, None, "", "/cwd", now), Some(Filter::Prefix("/cwd".to_string())));
    assert_eq!(history_filter(false, Some(u64::MAX), "", "/cwd", Timestamp { secs: i64::MIN, nanos: 0 }), None);
    assert_eq!(current_history_filter(true, None, "", "/"), Some(Filter::All));
    assert!(matches!(current_history_filter(false, Some(60), "", "/"), Some(Filter::Before(_))));
}

#[test]
fn purge_cutoffs() {
    let now = Timestamp { secs: 500, nanos: 0 };
    assert_eq!(purge_cutoff(true, None, now), Ok(now));
    assert_eq!(purge_cutoff(false, Some(100), now), Ok(Timestamp { secs: 400, nanos: 0 }));
    assert_eq!(purge_cutoff(false, None, now), Err(CutoffError::Missing));
    assert_eq!(
        purge_cutoff(false, Some(u64::MAX), Timestamp { secs: 0, nanos: 0 }),
        Err(CutoffError::OutOfRange)
    );
    assert_eq!(current_purge_cutoff(false, None), Err(CutoffError::Missing));
    assert!(current_purge_cutoff(false, Some(10)).unwrap().secs > 1_600_000_000);
    assert!(current_purge_cutoff(false, Some(9_000_000_000_000_000_000)).is_ok());
}

#[test]
fn default_locations() {
    assert_eq!(get_default_dir(Some("alice")), "/tmp/trm-alice");
    assert_eq!(get_default_dir(None), "/tmp/trm-default");
    assert_eq!(get_log_file(Some("alice")), "/tmp/trm-alice.log");
    assert_eq!(get_log_file(None), "/tmp/trm-default.log");
}

#[test]
fn trash_dir_choice() {
    assert_eq!(choose_trash_dir("/mine", "/tmp/trm-u", Some("/data")), "/mine");
    assert_eq!(choose_trash_dir("/tmp/trm-u", "/tmp/trm-u", Some("/data")), "/data");
    assert_eq!(choose_trash_dir("/tmp/trm-u", "/tmp/trm-u", Some("")), "/tmp/trm-u");
    assert_eq!(choose_trash_dir("/tmp/trm-u", "/tmp/trm-u", None), "/tmp/trm-u");
}

#[test]
fn confirmation_answers() {
    assert!(confirms("y\n"));
    assert!(confirms("  Y  "));
    assert!(!confirms("n\n"));
    assert!(!confirms("yes"));
    assert!(!confirms(""));
    assert!(is_yes("y"));
    assert!(!is_yes(" y"));
    assert!(confirms("\u{3000}y\u{a0}\t"));
    assert!(!confirms("\u{200b}y"));
}
