use session_runtime::shell::ShellRegistry;
use session_runtime::terminal::{SessionState, TerminalOutput, BACKLOG_CAPACITY};

fn out(seq: u64, data: &str) -> TerminalOutput {
    TerminalOutput { seq, data: data.to_string() }
}

#[test]
fn attach_after_k_chunks_replays_then_goes_live() {
    let mut st = SessionState::new("/w".to_string());
    for i in 1..=3u64 {
        let (rec, subs) = st.record_output(format!("c{}", i));
        assert_eq!(rec.seq, i);
        assert!(subs.is_empty());
    }
    let backlog = st.attach("main".to_string());
    assert_eq!(backlog, vec![out(1, "c1"), out(2, "c2"), out(3, "c3")]);
    let mut live = Vec::new();
    for i in 4..=6u64 {
        let (rec, subs) = st.record_output(format!("c{}", i));
        assert_eq!(subs, vec!["main".to_string()]);
        live.push(rec.seq);
    }
    assert_eq!(live, vec![4, 5, 6]);
}

#[test]
fn backlog_keeps_the_most_recent_capacity_records() {
    let mut st = SessionState::new(String::new());
    let extra = 5usize;
    for i in 0..(BACKLOG_CAPACITY + extra) {
        st.record_output(format!("{}", i + 1));
    }
    let backlog = st.attach("w".to_string());
    assert_eq!(backlog.len(), BACKLOG_CAPACITY);
    assert_eq!(backlog[0], out(extra as u64 + 1, &format!("{}", extra + 1)));
    assert_eq!(backlog[BACKLOG_CAPACITY - 1].seq, (BACKLOG_CAPACITY + extra) as u64);
    assert_eq!(st.seq(), (BACKLOG_CAPACITY + extra) as u64);
}

#[test]
fn attaching_twice_lists_the_subscriber_once_and_detach_removes_it() {
    let mut st = SessionState::new("/w".to_string());
    st.attach("a".to_string());
    st.attach("b".to_string());
    st.attach("a".to_string());
    assert_eq!(st.subscribers(), vec!["a".to_string(), "b".to_string()]);
    st.detach("a");
    assert_eq!(st.subscribers(), vec!["b".to_string()]);
    let (_, subs) = st.record_output("x".to_string());
    assert_eq!(subs, vec!["b".to_string()]);
}

#[test]
fn title_is_trimmed_and_blank_clears_it() {
    let mut st = SessionState::new("/w".to_string());
    st.set_title(Some("  build \t".to_string()));
    assert_eq!(st.title(), Some("build".to_string()));
    st.set_title(Some(" \u{3000} ".to_string()));
    assert_eq!(st.title(), None);
    st.set_title(Some("x".to_string()));
    st.set_title(None);
    assert_eq!(st.title(), None);
}

#[test]
fn start_twice_without_force_reuses_the_session() {
    let mut reg = ShellRegistry::new();
    assert_eq!(reg.find_reusable("/proj"), None);
    let first = reg.register("/proj", "/proj".to_string());
    assert_eq!(first, "s1");
    assert_eq!(reg.find_reusable("/proj"), Some(first.clone()));
    assert_eq!(reg.find_reusable("/proj"), Some(first));
}

#[test]
fn forced_sessions_are_distinct_and_both_listed() {
    let mut reg = ShellRegistry::new();
    let a = reg.register("/proj", "/proj".to_string());
    let b = reg.register("/proj", "/proj".to_string());
    assert_ne!(a, b);
    let listed: Vec<String> = reg.list_sessions("/proj", "/proj").into_iter().map(|i| i.session_id).collect();
    assert_eq!(listed, vec![a.clone(), b]);
    assert_eq!(reg.find_reusable("/proj"), Some(a));
}

#[test]
fn stop_is_idempotent_and_input_then_fails() {
    let mut reg = ShellRegistry::new();
    let id = reg.register("/proj", "/proj".to_string());
    assert!(reg.require_session(&id).is_ok());
    assert!(reg.stop(&id));
    assert!(!reg.stop(&id));
    assert!(!reg.stop("s99"));
    assert_eq!(reg.require_session(&id), Err("session not found".to_string()));
    assert!(reg.list_sessions("/proj", "/proj").is_empty());
    assert_eq!(reg.find_reusable("/proj"), None);
}

#[test]
fn stopped_session_is_pruned_and_a_new_one_is_registered() {
    let mut reg = ShellRegistry::new();
    let a = reg.register("/p", "/p".to_string());
    let b = reg.register("/p", "/p".to_string());
    reg.stop(&a);
    assert_eq!(reg.find_reusable("/p"), Some(b.clone()));
    reg.stop(&b);
    assert_eq!(reg.find_reusable("/p"), None);
    let c = reg.register("/p", "/p".to_string());
    assert_eq!(c, "s3");
}

#[test]
fn listing_reports_cwd_and_title() {
    let mut reg = ShellRegistry::new();
    let a = reg.register("/real/proj", String::new());
    reg.set_title(&a, Some(" dev ".to_string())).unwrap();
    let infos = reg.list_sessions("/real/proj", "proj");
    assert_eq!(infos.len(), 1);
    assert_eq!(infos[0].session_id, a);
    assert_eq!(infos[0].cwd, "proj");
    assert_eq!(infos[0].title, Some("dev".to_string()));
    assert_eq!(reg.set_title("nope", None), Err("session not found".to_string()));
}

#[test]
fn output_reaches_attached_subscribers_through_the_registry() {
    let mut reg = ShellRegistry::new();
    let id = reg.register("/p", "/p".to_string());
    let (first, subs) = reg.record_output(&id, "hi".to_string()).unwrap();
    assert_eq!(first, out(1, "hi"));
    assert!(subs.is_empty());
    let replay = reg.attach(&id, "win".to_string()).unwrap();
    assert_eq!(replay, vec![out(1, "hi")]);
    let (second, subs) = reg.record_output(&id, "there".to_string()).unwrap();
    assert_eq!(second.seq, 2);
    assert_eq!(subs, vec!["win".to_string()]);
    reg.detach(&id, "win");
    let (_, subs) = reg.record_output(&id, "!".to_string()).unwrap();
    assert!(subs.is_empty());
    assert!(reg.record_output("s42", "x".to_string()).is_none());
    assert_eq!(reg.attach("s42", "w".to_string()), Err("session not found".to_string()));
}

#[test]
fn begin_start_reuses_unless_forced() {
    let mut reg = ShellRegistry::new();
    assert_eq!(reg.begin_start("/p", false), None);
    let a = reg.register("/p", "/p".to_string());
    assert_eq!(reg.begin_start("/p", false), Some(a.clone()));
    assert_eq!(reg.begin_start("/p", true), None);
    let b = reg.register("/p", "/p".to_string());
    assert_ne!(a, b);
    assert_eq!(reg.begin_start("/p", false), Some(a));
}
