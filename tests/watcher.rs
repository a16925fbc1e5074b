use mailwatch::watcher::{
    handle_event, is_utf7_decodable, produce_event, split_mailbox_path, split_relative,
    ChangeKind, ChangedPath,
};

fn event(base: &str, path: &str, is_dir: bool) -> Option<(String, String)> {
    produce_event(base, path, is_dir).map(|e| (e.account, e.mailbox))
}

fn some(a: &str, m: &str) -> Option<(String, String)> {
    Some((a.to_owned(), m.to_owned()))
}

#[test]
fn classifies_new_file_in_mailbox() {
    assert_eq!(
        event("/base", "/base/acc1/Mail/mailboxes/Inbox/dbox-Mails/1.eml", false),
        some("acc1", "Inbox")
    );
}

#[test]
fn classifies_mailbox_directory_itself() {
    assert_eq!(
        event("/base", "/base/acc1/Mail/mailboxes/Inbox/dbox-Mails", true),
        some("acc1", "Inbox")
    );
}

#[test]
fn skips_cache_and_temp_files() {
    assert_eq!(
        event("/base", "/base/acc1/Mail/mailboxes/Inbox/dbox-Mails/dovecot.index.cache", false),
        None
    );
    assert_eq!(
        event("/base", "/base/acc1/Mail/mailboxes/Inbox/dbox-Mails/.temp.host.1234", false),
        None
    );
}

#[test]
fn decodes_encoded_mailbox_names() {
    assert_eq!(
        event("/base", "/base/acc1/Mail/mailboxes/Sp&AOQ-ter/dbox-Mails/1.eml", false),
        some("acc1", "Später")
    );
    assert_eq!(
        event("/base", "/base/acc1/Mail/mailboxes/Sp&AOQ-ter/Documents/dbox-Mails/1.eml", false),
        some("acc1", "Später/Documents")
    );
    assert_eq!(
        event("/base", "/base/acc1/Mail/mailboxes/Tom &- Jerry/dbox-Mails/1.eml", false),
        some("acc1", "Tom & Jerry")
    );
}

#[test]
fn skips_undecodable_mailbox_names() {
    assert_eq!(event("/base", "/base/acc1/Mail/mailboxes/Sp&A-ter/dbox-Mails/1.eml", false), None);
    assert_eq!(event("/base", "/base/acc1/Mail/mailboxes/Sp&AOR-ter/dbox-Mails/1.eml", false), None);
    assert!(is_utf7_decodable("Sp&AOQ-ter"));
    assert!(is_utf7_decodable("&-"));
    assert!(is_utf7_decodable("open & unclosed"));
    assert!(!is_utf7_decodable("&x-"));
    assert!(!is_utf7_decodable("&AO!-"));
}

#[test]
fn skips_paths_outside_the_layout() {
    assert_eq!(event("/base", "/other/acc1/Mail/mailboxes/Inbox/dbox-Mails/1.eml", false), None);
    assert_eq!(event("/base", "/base/acc1/Mail/Inbox/dbox-Mails/1.eml", false), None);
    assert_eq!(event("/base", "/base/acc1/Mail/mailboxes/dbox-Mails/1.eml", false), None);
    assert_eq!(event("/base", "/base/acc1/Mail/mailboxes/Inbox/1.eml", false), None);
    assert_eq!(event("/base", "/base/acc1/Mail/mailboxes/Inbox/dbox-Mails/sub/1.eml", false), None);
    assert_eq!(event("/base", "/", true), None);
}

#[test]
fn splits_relative_paths() {
    assert_eq!(split_relative("acc/Mail/mailboxes/a/b/dbox-Mails"), some("acc", "a/b"));
    assert_eq!(split_relative("/acc/Mail/mailboxes/x/dbox-Mails"), some("acc", "x"));
    assert_eq!(split_relative("//acc/Mail/mailboxes/x/dbox-Mails"), None);
    assert_eq!(split_relative("acc/Mail/mailboxes/a//b/dbox-Mails"), None);
    assert_eq!(split_relative("acc/Mail/mailboxes//a/dbox-Mails"), None);
    assert_eq!(split_relative("acc/Mail/mailboxes/a//dbox-Mails"), None);
    assert_eq!(
        split_mailbox_path("/base", "/base/acc1/Mail/mailboxes/Sp&AOQ-ter/dbox-Mails/1.eml", false),
        some("acc1", "Sp&AOQ-ter")
    );
}

#[test]
fn notification_kinds_filter_events() {
    let paths = vec![
        ChangedPath { path: "/base/acc1/Mail/mailboxes/mailbox1/dbox-Mails/1.eml".to_owned(), is_dir: false },
        ChangedPath { path: "/base/acc1/Mail/mailboxes/mailbox1/dbox-Mails/dovecot.index.cache".to_owned(), is_dir: false },
        ChangedPath { path: "/base/acc1/Mail/mailboxes/mailbox2/dbox-Mails/1.eml".to_owned(), is_dir: false },
    ];
    for kind in [ChangeKind::Create, ChangeKind::Remove, ChangeKind::Modify] {
        let events: Vec<(String, String)> =
            handle_event(kind, "/base", &paths).into_iter().map(|e| (e.account, e.mailbox)).collect();
        assert_eq!(
            events,
            vec![
                ("acc1".to_owned(), "mailbox1".to_owned()),
                ("acc1".to_owned(), "mailbox2".to_owned())
            ]
        );
    }
    assert!(handle_event(ChangeKind::Access, "/base", &paths).is_empty());
    assert!(handle_event(ChangeKind::Other, "/base", &paths).is_empty());
}

#[test]
fn root_matches_whole_segments() {
    assert_eq!(event("/base", "/base2/Mail/mailboxes/X/dbox-Mails/1.eml", false), None);
    assert_eq!(
        event("/base/", "/base/acc1/Mail/mailboxes/X/dbox-Mails/1.eml", false),
        some("acc1", "X")
    );
    assert_eq!(
        event("/base", "/base/acc1/Mail/mailboxes/X/dbox-Mails/1.eml", false),
        some("acc1", "X")
    );
}
