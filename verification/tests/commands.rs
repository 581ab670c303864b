//! Task groups and the handles of tasks.
use bgumcl::download::candidates::DownloadParam;
use bgumcl::external::UrlParts;
use bgumcl::paths::TargetPath;
use bgumcl::tasks::commands::{
    group_name, group_name_at, interleave_download_origins, new_task, task_file_name,
    with_file_name, PTaskParam,
};
use bgumcl::tasks::handle::{HandleEffect, PDesc, PHandle, PStatus};

fn parts(address: &str) -> UrlParts {
    let url = url::Url::parse(address).unwrap();
    UrlParts {
        href: url.as_str().to_string(),
        scheme: url.scheme().to_string(),
        username: url.username().to_string(),
        password: url.password().map(|s| s.to_string()),
        host: url.host_str().map(|s| s.to_string()),
        port: url.port(),
        path: url.path().to_string(),
        query: url.query().map(|s| s.to_string()),
        fragment: url.fragment().map(|s| s.to_string()),
        opaque: url.cannot_be_a_base(),
    }
}

fn file(address: &str, name: Option<&str>) -> DownloadParam {
    DownloadParam {
        src: parts(address),
        dest: TargetPath::at("root"),
        filename: name.map(|s| s.to_string()),
        sha1: None,
    }
}

fn download(host: &str, name: &str) -> PTaskParam {
    PTaskParam::Download(file(&format!("https://{host}/{name}"), Some(name)))
}

fn hosts(params: &[PTaskParam]) -> Vec<String> {
    params
        .iter()
        .map(|param| {
            let PTaskParam::Download(download) = param;
            download.src.host.clone().unwrap()
        })
        .collect::<Vec<_>>()
}

fn names(params: &[PTaskParam]) -> Vec<String> {
    params
        .iter()
        .map(|param| {
            let PTaskParam::Download(download) = param;
            download.filename.clone().unwrap()
        })
        .collect::<Vec<_>>()
}

#[test]
fn task_group_interleaves_origins_instead_of_leaving_modrinth_at_the_tail() {
    let reordered = interleave_download_origins(vec![
        download("mediafilez.forgecdn.net", "a"),
        download("mediafilez.forgecdn.net", "b"),
        download("mediafilez.forgecdn.net", "c"),
        download("cdn.modrinth.com", "d"),
        download("cdn.modrinth.com", "e"),
    ]);
    let hosts = hosts(&reordered);
    assert_eq!(
        hosts,
        vec![
            "mediafilez.forgecdn.net",
            "cdn.modrinth.com",
            "mediafilez.forgecdn.net",
            "cdn.modrinth.com",
            "mediafilez.forgecdn.net",
        ]
    );
}

#[test]
fn interleaving_keeps_the_order_of_an_origin() {
    let reordered = interleave_download_origins(vec![
        download("x.org", "1"),
        download("x.org", "2"),
        download("y.org", "3"),
        download("z.org", "4"),
        download("y.org", "5"),
        download("x.org", "6"),
    ]);
    assert_eq!(names(&reordered), vec!["1", "3", "4", "2", "5", "6"]);
    assert!(interleave_download_origins(Vec::new()).is_empty());
}

#[test]
fn files_that_take_turns_stay_as_they_are() {
    let hosts = ["x.org", "x.org", "y.org", "z.org", "y.org", "x.org", "z.org", "w.org"];
    let given = hosts.iter().enumerate().map(|(i, host)| download(host, &i.to_string()));
    let once = interleave_download_origins(given.collect::<Vec<_>>());
    let order = names(&once);
    assert_eq!(order, vec!["0", "2", "3", "7", "1", "4", "6", "5"]);
    assert_eq!(names(&interleave_download_origins(once)), order);
    let alike = vec![download("x.org", "1"), download("x.org", "2"), download("x.org", "3")];
    assert_eq!(names(&interleave_download_origins(alike)), vec!["1", "2", "3"]);
    let different = vec![download("z.org", "1"), download("x.org", "2"), download("y.org", "3")];
    assert_eq!(names(&interleave_download_origins(different)), vec!["1", "2", "3"]);
}

#[test]
fn files_without_a_host_share_an_origin() {
    let local = |name: &str| PTaskParam::Download(file("file:///tmp/a", Some(name)));
    let reordered =
        interleave_download_origins(vec![local("1"), local("2"), download("x.org", "3")]);
    assert_eq!(names(&reordered), vec!["1", "3", "2"]);
}

#[test]
fn group_names_are_told_apart_by_time() {
    assert_eq!(group_name_at("g", true, 17), "g@17");
    assert_eq!(group_name_at("g", true, -3), "g@-3");
    assert_eq!(group_name_at("g", false, 17), "g");
    assert_eq!(group_name("g", false), "g");
    let stamped = group_name("g", true);
    let millis: i64 = stamped.strip_prefix("g@").unwrap().parse().unwrap();
    assert!(millis > 1_600_000_000_000);
}

#[test]
fn tasks_are_made_for_files() {
    let named = with_file_name(file("https://x.org/a", Some("mine")), "other");
    assert_eq!(named.filename.as_deref(), Some("mine"));
    let derived = with_file_name(file("https://x.org/a", None), "other");
    assert_eq!(derived.filename.as_deref(), Some("other"));
    let desc = new_task(7, "group", derived);
    assert_eq!((desc.task_id, desc.current, desc.total), (7, 0, 0));
    assert_eq!(desc.task_group.as_deref(), Some("group"));
    assert_eq!(desc.status, PStatus::InProgress);
    assert_eq!(task_file_name(7), "task-7.json");
}

fn handle(status: PStatus) -> PHandle<u8> {
    PHandle::new(PDesc {
        task_id: 1,
        task_group: None,
        current: 10,
        total: 100,
        payload: 5,
        status,
    })
}

#[test]
fn stopping_and_resuming_a_task() {
    let mut h = handle(PStatus::InProgress);
    let effects = h.mark_stopped();
    assert!(matches!(effects[..], [HandleEffect::Persist, HandleEffect::ReportStopped]));
    assert!(h.status().is_stopped());
    h.store_waker();
    let effects = h.mark_resumed();
    assert!(matches!(
        effects[..],
        [
            HandleEffect::Persist,
            HandleEffect::ReportStarted { total: 100 },
            HandleEffect::Wake
        ]
    ));
    assert!(!h.waiting);
    assert_eq!(h.mark_resumed().len(), 2);
    assert_eq!(*h.status(), PStatus::InProgress);
}

#[test]
fn a_task_that_is_over_is_not_restored() {
    let mut h = handle(PStatus::InProgress);
    assert!(matches!(
        h.mark_cancelled()[..],
        [HandleEffect::Persist, HandleEffect::RemoveSaved, HandleEffect::ReportCancelled]
    ));
    assert!(h.mark_cancelled().is_empty());
    assert!(h.mark_failed("late".to_string()).is_empty());
    assert!(h.status().is_cancelled());

    let mut h = handle(PStatus::InProgress);
    assert!(matches!(
        h.mark_completed()[..],
        [HandleEffect::Persist, HandleEffect::RemoveSaved, HandleEffect::ReportCompletion]
    ));
    assert!(h.mark_failed("late".to_string()).is_empty());
    assert!(h.status().is_completed());

    let mut h = handle(PStatus::Waiting);
    assert_eq!(h.mark_started().len(), 2);
    let effects = h.mark_failed("broken".to_string());
    assert!(matches!(&effects[2], HandleEffect::ReportFailed { reason } if reason == "broken"));
    assert_eq!(*h.status(), PStatus::Failed);
}

#[test]
fn an_ended_task_leaves_nothing_saved() {
    let saved = |effects: Vec<HandleEffect>| {
        effects.iter().fold(true, |saved, effect| match effect {
            HandleEffect::Persist => true,
            HandleEffect::RemoveSaved => false,
            _ => saved,
        })
    };
    assert!(!saved(handle(PStatus::InProgress).mark_cancelled()));
    assert!(!saved(handle(PStatus::InProgress).mark_completed()));
    assert!(!saved(handle(PStatus::InProgress).mark_failed(String::new())));
    assert!(saved(handle(PStatus::InProgress).mark_stopped()));
}

#[test]
fn totals_only_grow() {
    let mut h = handle(PStatus::InProgress);
    assert!(h.set_total(-1).is_empty());
    assert!(h.set_total(100).is_empty());
    assert_eq!(h.set_total(101).len(), 2);
    assert_eq!(h.desc.total, 101);
}

#[test]
fn progress_is_counted_and_reported() {
    let mut h = handle(PStatus::InProgress);
    assert!(h.report_progress(5, false).is_empty());
    assert!(matches!(
        h.report_progress(5, true)[..],
        [HandleEffect::Persist, HandleEffect::ReportProgress { current: 20 }]
    ));
    assert!(h.report_progress_now(0).is_empty());
    assert!(h.report_progress_now(-3).is_empty());
    assert!(matches!(
        h.report_progress_now(2)[..],
        [HandleEffect::Persist, HandleEffect::ReportProgress { current: 22 }]
    ));
    assert!(matches!(
        h.set_current(-9)[..],
        [HandleEffect::Persist, HandleEffect::ReportProgress { current: 0 }]
    ));
}

#[test]
fn a_task_is_taken_up_where_it_stood_or_anew() {
    let desc = handle(PStatus::Failed).desc;
    let h = PHandle::taken_up(desc, false);
    assert_eq!((h.desc.current, *h.status()), (10, PStatus::Waiting));
    let h = PHandle::taken_up(h.desc, true);
    assert_eq!((h.desc.current, h.desc.total, h.desc.payload), (0, 100, 5));
}
