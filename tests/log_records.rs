use trm::engine::prune_chain;
use trm::lines::{frame_line, frame_log, split_lines};
use trm::log::{plan_purge, scan};
use trm::record::{matches_filter, FileInfo, Filter, OpType, Timestamp};

fn at(secs: i64) -> Timestamp {
    Timestamp { secs, nanos: 0 }
}

fn rec(op: OpType, src: &[&str], dst: &[&str], secs: i64) -> FileInfo {
    FileInfo {
        src: src.iter().map(|s| s.to_string()).collect(),
        dst: dst.iter().map(|s| s.to_string()).collect(),
        operation: op,
        moved_time: at(secs),
    }
}

fn text_of(v: &[u8]) -> String {
    String::from_utf8(v.to_vec()).unwrap()
}

/// Decodes one log line by hand through serde_json's value tree.
fn decode(line: &[u8]) -> Option<FileInfo> {
    let v: serde_json::Value = serde_json::from_slice(line).ok()?;
    let paths = |key: &str| -> Option<Vec<String>> {
        v.get(key)?
            .as_array()?
            .iter()
            .map(|s| s.as_str().map(|s| s.to_string()))
            .collect()
    };
    let operation = match v.get("operation")?.as_str()? {
        "TRASH" => OpType::TRASH,
        "RESTORE" => OpType::RESTORE,
        _ => return None,
    };
    Some(FileInfo {
        src: paths("src")?,
        dst: paths("dst")?,
        operation,
        moved_time: at(v.get("secs")?.as_i64()?),
    })
}

#[test]
fn op_type_names() {
    assert_eq!(OpType::TRASH.to_string(), "Trash");
    assert_eq!(OpType::RESTORE.to_string(), "Restore");
}

#[test]
fn split_lines_basic() {
    let lines = split_lines(&b"a\nbc\n".to_vec());
    assert_eq!(lines, vec![b"a".to_vec(), b"bc".to_vec()]);
}

#[test]
fn split_lines_without_final_newline_and_crlf() {
    let lines = split_lines(&b"a\r\n\nlast".to_vec());
    assert_eq!(lines, vec![b"a".to_vec(), b"".to_vec(), b"last".to_vec()]);
}

#[test]
fn split_lines_empty_and_single_newline() {
    assert_eq!(split_lines(&vec![]), Vec::<Vec<u8>>::new());
    assert_eq!(split_lines(&b"\n".to_vec()), vec![Vec::<u8>::new()]);
}

#[test]
fn frame_line_appends_newline() {
    assert_eq!(frame_line(b"{\"a\":1}".to_vec()), Some(b"{\"a\":1}\n".to_vec()));
}

#[test]
fn frame_line_refuses_newline_and_trailing_cr() {
    assert_eq!(frame_line(b"a\nb".to_vec()), None);
    assert_eq!(frame_line(b"a\r".to_vec()), None);
}

#[test]
fn frame_log_reads_back() {
    let lines = vec![b"one".to_vec(), b"".to_vec(), b"three".to_vec()];
    let text = frame_log(&lines).unwrap();
    assert_eq!(text_of(&text), "one\n\nthree\n");
    assert_eq!(split_lines(&text), lines);
    assert_eq!(frame_log(&vec![b"ok".to_vec(), b"bad\n".to_vec()]), None);
}

#[test]
fn appends_keep_earlier_lines() {
    let mut log: Vec<u8> = vec![];
    let mut seen: Vec<Vec<Vec<u8>>> = vec![];
    for line in ["{\"n\":1}", "{\"n\":2}", "{\"n\":3}"] {
        log.extend(frame_line(line.as_bytes().to_vec()).unwrap());
        seen.push(split_lines(&log));
    }
    let last = seen.last().unwrap().clone();
    for (n, lines) in seen.iter().enumerate() {
        assert_eq!(lines.len(), n + 1);
        assert_eq!(&last[..n + 1], &lines[..]);
    }
}

#[test]
fn malformed_line_between_two_records() {
    let text = [
        "{\"src\":[\"/a/x\"],\"dst\":[\"/t/a/x\"],\"operation\":\"TRASH\",\"secs\":10}\n",
        "{not json at all\n",
        "{\"src\":[\"/t/a/x\"],\"dst\":[\"/a/x\"],\"operation\":\"RESTORE\",\"secs\":20}\n",
    ]
    .concat();
    let entries: Vec<Option<FileInfo>> =
        split_lines(&text.as_bytes().to_vec()).iter().map(|l| decode(l)).collect();
    assert_eq!(entries.len(), 3);
    assert!(entries[1].is_none());
    let got = scan(entries, &Filter::All);
    assert_eq!(
        got,
        vec![
            rec(OpType::TRASH, &["/a/x"], &["/t/a/x"], 10),
            rec(OpType::RESTORE, &["/t/a/x"], &["/a/x"], 20),
        ]
    );
}

#[test]
fn prefix_filter_takes_exact_parent_only() {
    let a = rec(OpType::TRASH, &["/home/u/a.txt"], &["/t/home/u/a.txt"], 1);
    let b = rec(OpType::TRASH, &["/home/u/sub/b.txt"], &["/t/home/u/sub/b.txt"], 2);
    let got = scan(vec![Some(a.clone()), Some(b)], &Filter::Prefix("/home/u".to_string()));
    assert_eq!(got, vec![a]);
}

#[test]
fn prefix_filter_with_non_canonical_directory() {
    let a = rec(OpType::TRASH, &["/a/b"], &["/t/a/b"], 1);
    let got = scan(vec![Some(a.clone())], &Filter::Prefix("/a/.".to_string()));
    assert_eq!(got, vec![a.clone()]);
    let got = scan(vec![Some(a.clone())], &Filter::Prefix("//a//".to_string()));
    assert_eq!(got, vec![a]);
}

#[test]
fn prefix_filter_reads_destinations_of_restores() {
    let r = rec(OpType::RESTORE, &["/t/home/u/a.txt"], &["/home/u/a.txt"], 3);
    assert!(matches_filter(&r, &Filter::Prefix("/home/u/".to_string())));
    assert!(!matches_filter(&r, &Filter::Prefix("/t/home/u".to_string())));
}

#[test]
fn before_filter_stops_at_first_later_record() {
    let entries = vec![
        Some(rec(OpType::TRASH, &["/a"], &["/t/a"], 1)),
        None,
        Some(rec(OpType::TRASH, &["/b"], &["/t/b"], 2)),
        Some(rec(OpType::TRASH, &["/c"], &["/t/c"], 9)),
        Some(rec(OpType::TRASH, &["/d"], &["/t/d"], 3)),
    ];
    let got = scan(entries, &Filter::Before(at(5)));
    assert_eq!(got.len(), 2);
    assert_eq!(got[0].src, vec!["/a".to_string()]);
    assert_eq!(got[1].src, vec!["/b".to_string()]);
}

#[test]
fn before_is_strict() {
    let r = rec(OpType::TRASH, &["/a"], &["/t/a"], 5);
    assert!(!matches_filter(&r, &Filter::Before(at(5))));
    assert!(matches_filter(&r, &Filter::Before(Timestamp { secs: 5, nanos: 1 })));
}

#[test]
fn purge_keeps_later_record_and_deletes_earlier() {
    let old = rec(OpType::TRASH, &["/home/u/a.txt"], &["/t/home/u/a.txt"], 100);
    let new = rec(OpType::TRASH, &["/home/u/b.txt"], &["/t/home/u/b.txt"], 300);
    let plan = plan_purge(vec![Some(old), Some(new.clone())], &at(200));
    assert_eq!(plan.expired, vec!["/t/home/u/a.txt".to_string()]);
    assert_eq!(plan.retained, vec![new]);
    assert_eq!(
        prune_chain("/t", "/t/home/u/a.txt"),
        vec!["/t/home/u".to_string(), "/t/home".to_string()]
    );
}

#[test]
fn purge_drops_old_restores_without_paths() {
    let restore = rec(OpType::RESTORE, &["/t/x"], &["/x"], 50);
    let trash = rec(OpType::TRASH, &["/y", "/z"], &["/t/y", "/t/z"], 60);
    let plan = plan_purge(vec![Some(restore), None, Some(trash)], &at(1000));
    assert_eq!(plan.expired, vec!["/t/y".to_string(), "/t/z".to_string()]);
    assert!(plan.retained.is_empty());
}

#[test]
fn prune_chain_stops_below_root() {
    assert_eq!(prune_chain("/t", "/t/a"), Vec::<String>::new());
    assert_eq!(prune_chain("/t/", "/t/a/b"), vec!["/t/a".to_string()]);
    assert_eq!(prune_chain("/t", "/elsewhere/a/b"), Vec::<String>::new());
}

#[test]
fn timestamp_order_and_shift() {
    assert!(at(1).is_before(&at(2)));
    assert!(!at(2).is_before(&at(2)));
    assert_eq!(at(100).minus_secs(40), Some(at(60)));
    assert_eq!(at(i64::MIN + 5).minus_secs(6), None);
    assert_eq!(at(0).minus_secs(u64::MAX), None);
}

#[test]
fn before_scan_on_ordered_log_returns_all_earlier() {
    let entries = vec![
        Some(rec(OpType::TRASH, &["/a"], &["/t/a"], 1)),
        Some(rec(OpType::RESTORE, &["/t/a"], &["/a"], 2)),
        None,
        Some(rec(OpType::TRASH, &["/b"], &["/t/b"], 4)),
        Some(rec(OpType::TRASH, &["/c"], &["/t/c"], 6)),
        Some(rec(OpType::TRASH, &["/d"], &["/t/d"], 8)),
    ];
    let all_before: Vec<FileInfo> = entries
        .iter()
        .flatten()
        .filter(|r| r.moved_time.is_before(&at(5)))
        .cloned()
        .collect();
    let got = scan(entries, &Filter::Before(at(5)));
    assert_eq!(got.len(), 3);
    assert_eq!(got, all_before);
}
