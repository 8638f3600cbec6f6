use browser_favicon_buddy::cache::{CacheEntry, FaviconCache};
use browser_favicon_buddy::fetch::FetchError;
use browser_favicon_buddy::pipeline::{Action, LogEvent, Phase, Session};

const TEMPLATE: &str = "https://icons.test/{domain}.ico";

struct Run {
    session: Session,
    fetched: Vec<String>,
    checkpoints: usize,
    last: Action,
}

/// Drives a session to its end; `fetch` answers each request and
/// `cancel_after` sets the cancellation flag once that many links were handled.
fn run(doc: &str, cache: FaviconCache, fetch: &dyn Fn(&str) -> Result<String, FetchError>, cancel_after: Option<usize>) -> Run {
    let mut session = Session::start(doc.as_bytes().to_vec(), cache, TEMPLATE.to_string());
    let mut fetched = Vec::new();
    let mut checkpoints = 0;
    loop {
        let cancelled = matches!(cancel_after, Some(k) if session.progress().0 >= k);
        let mut action = session.step(cancelled);
        if let Action::Fetch(url) = &action {
            fetched.push(url.clone());
            let outcome = fetch(url);
            action = session.complete_fetch(outcome);
        }
        match action {
            Action::Checkpoint => checkpoints += 1,
            Action::Continue => {}
            Action::Abort | Action::Finish => {
                return Run { session, fetched, checkpoints, last: action };
            }
            Action::Fetch(_) => unreachable!(),
        }
    }
}

fn ok_payload(url: &str) -> Result<String, FetchError> {
    Ok(format!("P[{}]", url.len()))
}

fn output(r: &Run) -> String {
    String::from_utf8(r.session.output().clone()).unwrap()
}

#[test]
fn splices_icon_into_each_anchor() {
    let doc = r#"<DL><DT><A HREF="https://a.com/x" ADD_DATE="1">A</A>
<DT><A HREF="https://b.org/">B</A></DL>"#;
    let r = run(doc, FaviconCache::new(), &|_| Ok("X".to_string()), None);
    assert!(matches!(r.last, Action::Finish));
    assert_eq!(r.session.phase(), Phase::Completed);
    assert_eq!(
        output(&r),
        r#"<DL><DT><A HREF="https://a.com/x" ADD_DATE="1" icon="X">A</A>
<DT><A HREF="https://b.org/" icon="X">B</A></DL>"#
    );
    assert_eq!(r.fetched, vec!["https://icons.test/a.com.ico".to_string(), "https://icons.test/b.org.ico".to_string()]);
    assert_eq!(r.session.counts(), (2, 0));
    assert_eq!(r.session.progress(), (2, 2));
}

#[test]
fn offsets_follow_earlier_insertions() {
    // anchors end at original positions; each later splice point moves by
    // the length of all attributes inserted before it
    let doc = r#"<A HREF="http://h1.com">1</A><A HREF="http://h2.com">2</A><A HREF="http://h3.com">3</A>"#;
    let payloads = |url: &str| -> Result<String, FetchError> {
        if url.contains("h1") {
            Ok("aa".to_string())
        } else if url.contains("h2") {
            Ok("bbbb".to_string())
        } else {
            Ok("c".to_string())
        }
    };
    let r = run(doc, FaviconCache::new(), &payloads, None);
    let out = output(&r);
    let l1 = r#" icon="aa""#.len();
    let l2 = r#" icon="bbbb""#.len();
    let p3 = doc.rfind("\">3").unwrap() + 1;
    assert_eq!(&out[p3 + l1 + l2..p3 + l1 + l2 + 10], r#" icon="c">"#);
    assert_eq!(
        out,
        r#"<A HREF="http://h1.com" icon="aa">1</A><A HREF="http://h2.com" icon="bbbb">2</A><A HREF="http://h3.com" icon="c">3</A>"#
    );
}

#[test]
fn failed_fetch_is_cached_and_never_retried() {
    let doc = r#"<A HREF="https://c.net/1">1</A><A HREF="https://c.net/2">2</A><A HREF="https://c.net/3">3</A>"#;
    let r = run(doc, FaviconCache::new(), &|_| Err(FetchError::Status(404)), None);
    assert_eq!(r.fetched.len(), 1);
    assert_eq!(r.session.counts(), (0, 3));
    assert_eq!(output(&r), doc);
    let cache = r.session.cache().clone();
    let again = run(doc, cache, &|_| panic!("no request expected"), None);
    assert!(again.fetched.is_empty());
    assert_eq!(again.session.counts(), (0, 3));
    assert_eq!(again.session.cache().lookup(&"c.net".to_string()), CacheEntry::PermanentFailure);
}

#[test]
fn warm_cache_rerun_is_identical_and_offline() {
    let doc = r#"<A HREF="https://a.com/">a</A> <A HREF='https://b.com/'>b</A> <A HREF="https://a.com/2">a2</A>"#;
    let first = run(doc, FaviconCache::new(), &ok_payload, None);
    assert_eq!(first.fetched.len(), 2);
    let second = run(doc, first.session.cache().clone(), &|_| panic!("no request expected"), None);
    assert!(second.fetched.is_empty());
    assert_eq!(output(&first), output(&second));
}

#[test]
fn cancellation_stops_without_output() {
    let doc = r#"<A HREF="https://1.com/">1</A><A HREF="https://2.com/">2</A><A HREF="https://3.com/">3</A><A HREF="https://4.com/">4</A>"#;
    let r = run(doc, FaviconCache::new(), &ok_payload, Some(2));
    assert!(matches!(r.last, Action::Abort));
    assert_eq!(r.session.phase(), Phase::Aborted);
    assert_eq!(r.session.progress(), (2, 4));
    assert_eq!(r.fetched.len(), 2);
    assert_eq!(r.session.cache().lookup(&"3.com".to_string()), CacheEntry::Unresolved);
}

#[test]
fn unresolvable_links_are_skipped_but_counted_in_total() {
    let doc = r#"<A HREF="javascript:void(0)">x</A><A HREF="not a url">y</A><A HREF="https://ok.com/">z</A>"#;
    let r = run(doc, FaviconCache::new(), &ok_payload, None);
    assert_eq!(r.session.progress(), (1, 3));
    assert_eq!(r.session.counts(), (1, 0));
    assert_eq!(r.fetched, vec!["https://icons.test/ok.com.ico".to_string()]);
}

#[test]
fn document_without_anchors_is_unchanged() {
    let doc = "<html><a href=\"https://lower.case/\">no</a></html>";
    let r = run(doc, FaviconCache::new(), &ok_payload, None);
    assert_eq!(output(&r), doc);
    assert_eq!(r.session.progress(), (0, 0));
}

#[test]
fn checkpoint_every_fifty_links() {
    let mut doc = String::new();
    for i in 0..120 {
        doc.push_str(&format!("<A HREF=\"https://h{}.com/\">{}</A>\n", i, i));
    }
    let r = run(&doc, FaviconCache::new(), &ok_payload, None);
    assert_eq!(r.checkpoints, 2);
    assert_eq!(r.session.counts(), (120, 0));
}

#[test]
fn log_reports_progress_every_ten_and_at_end() {
    let mut doc = String::new();
    for i in 0..12 {
        doc.push_str(&format!("<A HREF=\"https://h{}.com/\">{}</A>", i, i));
    }
    let mut r = run(&doc, FaviconCache::new(), &ok_payload, None);
    let events = r.session.take_events();
    let progress: Vec<(usize, usize)> = events
        .iter()
        .filter_map(|e| match e {
            LogEvent::Progress { processed, total } => Some((*processed, *total)),
            _ => None,
        })
        .collect();
    assert_eq!(progress, vec![(10, 12), (12, 12)]);
    assert!(matches!(events.first(), Some(LogEvent::Found { total: 12 })));
    assert!(matches!(events.last(), Some(LogEvent::Completed { succeeded: 12, failed: 0, total: 12 })));
    assert!(r.session.take_events().is_empty());
}

#[test]
fn cancel_after_last_link_still_finishes() {
    let doc = r#"<A HREF="https://1.com/">1</A><A HREF="https://2.com/">2</A>"#;
    let r = run(doc, FaviconCache::new(), &|_| Ok("X".to_string()), Some(2));
    assert!(matches!(r.last, Action::Finish));
    assert_eq!(r.session.phase(), Phase::Completed);
    assert_eq!(output(&r), r#"<A HREF="https://1.com/" icon="X">1</A><A HREF="https://2.com/" icon="X">2</A>"#);
}

#[test]
fn spaces_around_equals_keep_quoted_value() {
    let doc = r#"<A HREF = "https://spaced.com/">s</A>"#;
    let r = run(doc, FaviconCache::new(), &|_| Ok("X".to_string()), None);
    assert_eq!(r.fetched, vec!["https://icons.test/spaced.com.ico".to_string()]);
    assert_eq!(output(&r), r#"<A HREF = "https://spaced.com/" icon="X">s</A>"#);
}
