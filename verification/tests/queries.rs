use zygiskd::config::{
    parse_package_config, uid_granted_root, uid_is_manager, uid_should_umount,
};

const HEADER: &[u8] = b"pkg,exclude,allow,uid,to_uid,sctx";

fn table(rows: &[&[u8]]) -> Vec<u8> {
    let mut text = HEADER.to_vec();
    for row in rows {
        text.push(b'\n');
        text.extend_from_slice(row);
    }
    text
}

#[test]
fn granted_and_umount_for_single_row() {
    let text = table(&[b"com.app,0,1,10001,10001,ctx"]);
    assert_eq!(uid_granted_root(Some(&text), 10001), true);
    assert_eq!(uid_should_umount(Some(&text), 10001), false);
    assert_eq!(uid_granted_root(Some(&text), 99999), false);
}

#[test]
fn malformed_rows_are_skipped_not_fatal() {
    let text = table(&[
        b"bad,row",
        b"not,numeric,x,y,z,w",
        b"too,0,1,10001,10001,ctx,extra",
        b"com.app,1,1,10001,10001,ctx",
    ]);
    let entries = parse_package_config(&text);
    assert_eq!(entries.len(), 1);
    assert_eq!(uid_granted_root(Some(&text), 10001), true);
    assert_eq!(uid_should_umount(Some(&text), 10001), true);
}

#[test]
fn first_matching_row_wins() {
    let text = table(&[b"a,0,1,5,5,c", b"b,1,0,5,5,c"]);
    assert_eq!(uid_granted_root(Some(&text), 5), true);
    assert_eq!(uid_should_umount(Some(&text), 5), false);
}

#[test]
fn absent_uid_and_unreadable_file_fail_closed() {
    let text = table(&[b"com.app,0,1,10001,10001,ctx"]);
    assert_eq!(uid_granted_root(Some(&text), 1234), false);
    assert_eq!(uid_should_umount(Some(&text), 1234), false);
    assert_eq!(uid_granted_root(None, 10001), false);
    assert_eq!(uid_should_umount(None, 10001), false);
}

#[test]
fn parsed_entries_keep_fields_and_order() {
    let text = table(&[b"com.a,1,0,7,8,u:r:a", b"com.b,0,1,9,10,u:r:b"]);
    let entries = parse_package_config(&text);
    assert_eq!(entries.len(), 2);
    assert_eq!(entries[0].pkg, b"com.a".to_vec());
    assert_eq!(entries[0].exclude, 1);
    assert_eq!(entries[0].allow, 0);
    assert_eq!(entries[0].uid, 7);
    assert_eq!(entries[0].to_uid, 8);
    assert_eq!(entries[0].sctx, b"u:r:a".to_vec());
    assert_eq!(entries[1].uid, 9);
}

#[test]
fn empty_and_header_only_tables_have_no_entries() {
    assert_eq!(parse_package_config(b"").len(), 0);
    assert_eq!(parse_package_config(HEADER).len(), 0);
    assert_eq!(uid_granted_root(Some(b""), 0), false);
}

#[test]
fn crlf_line_endings_are_accepted() {
    let text = b"pkg,exclude,allow,uid,to_uid,sctx\r\ncom.app,0,1,7,7,ctx\r\n".to_vec();
    let entries = parse_package_config(&text);
    assert_eq!(entries.len(), 1);
    assert_eq!(entries[0].sctx, b"ctx".to_vec());
    assert_eq!(uid_granted_root(Some(&text), 7), true);
}

#[test]
fn manager_is_owner_of_data_directory() {
    assert_eq!(uid_is_manager(Some(10001), 10001), true);
    assert_eq!(uid_is_manager(Some(10001), 10002), false);
    assert_eq!(uid_is_manager(Some(0), 0), true);
    assert_eq!(uid_is_manager(None, 10001), false);
}
