use prism::ipc::{HelpEntry, RpcResponse};
use prism::process::{last_path_segment, process_name, ProcessIdentity};

#[test]
fn help_entry_bundles_its_fields() {
    let e = HelpEntry::new(
        String::from("clients"),
        String::from("clients"),
        String::from("Show active clients"),
    );
    assert_eq!(e.command, "clients");
    assert_eq!(e.usage, "clients");
    assert_eq!(e.description, "Show active clients");
}

#[test]
fn rpc_response_carries_status_and_payload() {
    let resp = RpcResponse {
        status: String::from("ok"),
        message: None,
        data: Some(vec![1u32, 2, 3]),
    };
    assert_eq!(resp.status, "ok");
    assert_eq!(resp.data.unwrap(), vec![1, 2, 3]);
}

#[test]
fn last_segment_of_a_path() {
    assert_eq!(last_path_segment("/usr/bin/afplay"), "afplay");
    assert_eq!(last_path_segment("afplay"), "afplay");
    assert_eq!(last_path_segment("/usr/bin/"), "");
    assert_eq!(last_path_segment(""), "");
}

#[test]
fn identity_from_path_derives_the_display_name() {
    let p = ProcessIdentity::from_path(42, Some(String::from("/Applications/X.app/Contents/MacOS/X")));
    assert_eq!(p.pid, 42);
    assert_eq!(p.display_name.as_deref(), Some("X"));

    let no_name = ProcessIdentity::from_path(43, Some(String::from("/usr/bin/")));
    assert_eq!(no_name.display_name, None);

    let no_path = ProcessIdentity::from_path(44, None);
    assert_eq!(no_path.display_name, None);
    assert_eq!(no_path.executable_path, None);
}

#[test]
fn preferred_name_falls_back_to_the_path_segment() {
    let with_name = ProcessIdentity {
        pid: 1,
        executable_path: Some(String::from("/usr/bin/afplay")),
        display_name: Some(String::from("Music")),
    };
    assert_eq!(with_name.preferred_name().as_deref(), Some("Music"));

    let path_only = ProcessIdentity {
        pid: 2,
        executable_path: Some(String::from("/usr/bin/afplay")),
        display_name: None,
    };
    assert_eq!(path_only.preferred_name().as_deref(), Some("afplay"));

    let nothing = ProcessIdentity { pid: 3, executable_path: None, display_name: None };
    assert_eq!(nothing.preferred_name(), None);
}

#[test]
fn process_name_requires_a_nonempty_segment() {
    assert_eq!(
        process_name(7, Some(String::from("/usr/bin/afplay"))).as_deref(),
        Some("afplay")
    );
    assert_eq!(process_name(7, Some(String::from("/usr/bin/"))), None);
    assert_eq!(process_name(7, None), None);
}
