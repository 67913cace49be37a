//! The per-package permission table and the identity queries answered from
//! it: whether a uid is granted root, whether it is excluded from mount
//! unmounting, and whether it owns the management application's data
//! directory.
//!
//! The table is a line-oriented text file: a header line, then
//! comma-separated rows of exactly six fields,
//! `package_name, exclude, allow, uid, to_uid, security_context_label`.
//! A row that does not decode is skipped; it never aborts the load. The
//! surrounding program reads the file and hands its bytes in, or `None`
//! where the file could not be opened; every query fails closed.

use vstd::prelude::*;

use crate::text::{parse_i32, parse_i32_spec, spec_lines, split, split_bytes, split_lines, views_of, COMMA};

verus! {

/// One decoded row of the permission table, as the contracts speak of it.
pub ghost struct PackageConfigView {
    pub pkg: Seq<u8>,
    pub exclude: int,
    pub allow: int,
    pub uid: int,
    pub to_uid: int,
    pub sctx: Seq<u8>,
}

/// One decoded row of the permission table.
pub struct PackageConfig {
    /// Package identifier; informational, not the lookup key.
    pub pkg: Vec<u8>,
    /// Nonzero: exclude this identity from mount-namespace unmounting.
    pub exclude: i32,
    /// Nonzero: root is granted to this identity.
    pub allow: i32,
    /// Process owner identity; the lookup key.
    pub uid: i32,
    /// Identity this uid is mapped to; stored, unused by the queries here.
    pub to_uid: i32,
    /// Security context label to apply; stored, unused by the queries here.
    pub sctx: Vec<u8>,
}

impl View for PackageConfig {
    type V = PackageConfigView;

    open spec fn view(&self) -> PackageConfigView {
        PackageConfigView {
            pkg: self.pkg@,
            exclude: self.exclude as int,
            allow: self.allow as int,
            uid: self.uid as int,
            to_uid: self.to_uid as int,
            sctx: self.sctx@,
        }
    }
}

/// What one line of the table decodes to: exactly six comma-separated
/// fields with numeric `exclude`, `allow`, `uid` and `to_uid`, or nothing.
pub open spec fn row_spec(line: Seq<u8>) -> Option<PackageConfigView> {
    let fields = split_bytes(line, COMMA);
    if fields.len() != 6 {
        None
    } else {
        match parse_i32_spec(fields[1]) {
            Some(exclude) => match parse_i32_spec(fields[2]) {
                Some(allow) => match parse_i32_spec(fields[3]) {
                    Some(uid) => match parse_i32_spec(fields[4]) {
                        Some(to_uid) => Some(
                            PackageConfigView {
                                pkg: fields[0],
                                exclude,
                                allow,
                                uid,
                                to_uid,
                                sctx: fields[5],
                            },
                        ),
                        None => None,
                    },
                    None => None,
                },
                None => None,
            },
            None => None,
        }
    }
}

/// The rows a sequence of lines decodes to, in order, rows that do not
/// decode skipped.
pub open spec fn rows_spec(lines: Seq<Seq<u8>>) -> Seq<PackageConfigView>
    decreases lines.len(),
{
    if lines.len() == 0 {
        Seq::empty()
    } else {
        match row_spec(lines[0]) {
            Some(e) => seq![e] + rows_spec(lines.skip(1)),
            None => rows_spec(lines.skip(1)),
        }
    }
}

/// The entries of a permission-table file: its lines after the header, in
/// file order, undecodable rows skipped.
pub open spec fn config_entries(text: Seq<u8>) -> Seq<PackageConfigView> {
    rows_spec(spec_lines(text).skip(1))
}

/// The views of a sequence of decoded rows.
pub open spec fn entry_views(entries: Seq<PackageConfig>) -> Seq<PackageConfigView> {
    entries.map_values(|c: PackageConfig| c@)
}

fn parse_row(line: &[u8]) -> (r: Option<PackageConfig>)
    ensures
        match r {
            Some(c) => row_spec(line@) == Some(c@),
            None => row_spec(line@) is None,
        },
{
    let mut fields = split(line, COMMA);
    proof {
        assert(forall|j: int| 0 <= j < fields@.len() ==> #[trigger] fields@[j]@ == split_bytes(
            line@,
            COMMA,
        )[j]);
    }
    if fields.len() != 6 {
        return None;
    }
    let exclude = match parse_i32(fields[1].as_slice()) {
        Some(v) => v,
        None => {
            return None;
        },
    };
    let allow = match parse_i32(fields[2].as_slice()) {
        Some(v) => v,
        None => {
            return None;
        },
    };
    let uid = match parse_i32(fields[3].as_slice()) {
        Some(v) => v,
        None => {
            return None;
        },
    };
    let to_uid = match parse_i32(fields[4].as_slice()) {
        Some(v) => v,
        None => {
            return None;
        },
    };
    let sctx = fields.remove(5);
    let pkg = fields.remove(0);
    Some(PackageConfig { pkg, exclude, allow, uid, to_uid, sctx })
}

/// Decodes the permission table from the file's bytes: the header line is
/// skipped, each further line becomes an entry if it decodes, and a line
/// that does not decode is skipped without aborting the rest of the load.
pub fn parse_package_config(text: &[u8]) -> (r: Vec<PackageConfig>)
    ensures
        entry_views(r@) == config_entries(text@),
{
    let lines = split_lines(text);
    let ghost all = spec_lines(text@);
    let mut r: Vec<PackageConfig> = Vec::new();
    let mut i: usize = 1;
    proof {
        assert(entry_views(r@) =~= Seq::<PackageConfigView>::empty());
    }
    while i < lines.len()
        invariant
            1 <= i <= lines@.len(),
            views_of(lines@) == all,
            all == spec_lines(text@),
            entry_views(r@) + rows_spec(all.skip(i as int)) == rows_spec(all.skip(1)),
        decreases lines@.len() - i,
    {
        let ghost prev = entry_views(r@);
        proof {
            assert(views_of(lines@)[i as int] == lines@[i as int]@);
            assert(all.skip(i as int)[0] == all[i as int]);
            assert(all.skip(i as int).skip(1) =~= all.skip(i as int + 1));
        }
        match parse_row(lines[i].as_slice()) {
            Some(c) => {
                r.push(c);
                proof {
                    assert(entry_views(r@) =~= prev + seq![c@]);
                    assert((prev + seq![c@]) + rows_spec(all.skip(i as int + 1)) =~= prev + (
                    seq![c@] + rows_spec(all.skip(i as int + 1))));
                }
            },
            None => {},
        }
        i = i + 1;
    }
    proof {
        assert(all.skip(i as int) =~= Seq::<Seq<u8>>::empty());
        assert(entry_views(r@) + Seq::<PackageConfigView>::empty() =~= entry_views(r@));
    }
    r
}

/// The first entry whose uid matches, in file order.
pub open spec fn find_uid(entries: Seq<PackageConfigView>, uid: int) -> Option<PackageConfigView>
    decreases entries.len(),
{
    if entries.len() == 0 {
        None
    } else if entries[0].uid == uid {
        Some(entries[0])
    } else {
        find_uid(entries.skip(1), uid)
    }
}

/// Whether a table grants root to `uid`: the first matching entry's `allow`
/// flag is nonzero; false when no entry matches.
pub open spec fn granted_spec(text: Seq<u8>, uid: int) -> bool {
    match find_uid(config_entries(text), uid) {
        Some(e) => e.allow != 0,
        None => false,
    }
}

/// Whether a table excludes `uid` from unmounting: the first matching
/// entry's `exclude` flag is nonzero; false when no entry matches.
pub open spec fn umount_spec(text: Seq<u8>, uid: int) -> bool {
    match find_uid(config_entries(text), uid) {
        Some(e) => e.exclude != 0,
        None => false,
    }
}

/// The first matching entry wins: if `uid` first matches at position `i`,
/// the match is exactly that entry, whatever later rows say.
pub proof fn lemma_find_uid_first(entries: Seq<PackageConfigView>, uid: int, i: int)
    requires
        0 <= i < entries.len(),
        entries[i].uid == uid,
        forall|j: int| 0 <= j < i ==> entries[j].uid != uid,
    ensures
        find_uid(entries, uid) == Some(entries[i]),
    decreases i,
{
    if i > 0 {
        lemma_find_uid_first(entries.skip(1), uid, i - 1);
        assert(entries.skip(1)[i - 1] == entries[i]);
        assert(forall|j: int| 0 <= j < i - 1 ==> entries.skip(1)[j] == entries[j + 1]);
    }
}

/// A uid that matches no entry finds nothing.
pub proof fn lemma_find_uid_absent(entries: Seq<PackageConfigView>, uid: int)
    requires
        forall|j: int| 0 <= j < entries.len() ==> entries[j].uid != uid,
    ensures
        find_uid(entries, uid) is None,
    decreases entries.len(),
{
    if entries.len() > 0 {
        assert(forall|j: int| 0 <= j < entries.skip(1).len() ==> entries.skip(1)[j] == entries[
            j + 1
        ]);
        lemma_find_uid_absent(entries.skip(1), uid);
    }
}

/// A malformed row is skipped without effect on the others: dropping a line
/// that does not decode leaves the decoded rows unchanged.
pub proof fn lemma_bad_row_skipped(lines: Seq<Seq<u8>>, i: int)
    requires
        0 <= i < lines.len(),
        row_spec(lines[i]) is None,
    ensures
        rows_spec(lines.remove(i)) == rows_spec(lines),
    decreases i,
{
    if i == 0 {
        assert(lines.remove(0) =~= lines.skip(1));
    } else {
        lemma_bad_row_skipped(lines.skip(1), i - 1);
        assert(lines.remove(i).skip(1) =~= lines.skip(1).remove(i - 1));
        assert(lines.remove(i)[0] == lines[0]);
    }
}

/// For a uid whose first match in the table is row `i`, both boolean
/// queries reflect that row's flags, not a later row's.
pub proof fn lemma_first_match_wins(text: Seq<u8>, uid: int, i: int)
    requires
        0 <= i < config_entries(text).len(),
        config_entries(text)[i].uid == uid,
        forall|j: int| 0 <= j < i ==> config_entries(text)[j].uid != uid,
    ensures
        granted_spec(text, uid) == (config_entries(text)[i].allow != 0),
        umount_spec(text, uid) == (config_entries(text)[i].exclude != 0),
{
    lemma_find_uid_first(config_entries(text), uid, i);
}

/// Fail-closed: a uid that appears in no row is granted nothing and
/// excluded from nothing.
pub proof fn lemma_absent_uid_fail_closed(text: Seq<u8>, uid: int)
    requires
        forall|j: int| 0 <= j < config_entries(text).len() ==> config_entries(text)[j].uid != uid,
    ensures
        !granted_spec(text, uid),
        !umount_spec(text, uid),
{
    lemma_find_uid_absent(config_entries(text), uid);
}

/// Answers whether `uid` is granted root, from the permission-table bytes,
/// or `None` where the file could not be opened. Fail-closed: a missing
/// file, a missing row or a zero `allow` flag all answer `false`.
pub fn uid_granted_root(config_text: Option<&[u8]>, uid: i32) -> (r: bool)
    ensures
        r == match config_text {
            Some(t) => granted_spec(t@, uid as int),
            None => false,
        },
{
    match config_text {
        None => false,
        Some(text) => {
            let entries = parse_package_config(text);
            let ghost views = config_entries(text@);
            let mut i: usize = 0;
            while i < entries.len()
                invariant
                    config_text == Some(text),
                    i <= entries@.len(),
                    entry_views(entries@) == views,
                    views == config_entries(text@),
                    forall|j: int| 0 <= j < i ==> views[j].uid != uid as int,
                decreases entries@.len() - i,
            {
                proof {
                    assert(entry_views(entries@)[i as int] == entries@[i as int]@);
                }
                if entries[i].uid == uid {
                    proof {
                        lemma_find_uid_first(views, uid as int, i as int);
                    }
                    return entries[i].allow != 0;
                }
                i = i + 1;
            }
            proof {
                lemma_find_uid_absent(views, uid as int);
            }
            false
        },
    }
}

/// Answers whether `uid` should be excluded from mount-namespace
/// unmounting, from the permission-table bytes, or `None` where the file
/// could not be opened. Fail-closed like `uid_granted_root`.
pub fn uid_should_umount(config_text: Option<&[u8]>, uid: i32) -> (r: bool)
    ensures
        r == match config_text {
            Some(t) => umount_spec(t@, uid as int),
            None => false,
        },
{
    match config_text {
        None => false,
        Some(text) => {
            let entries = parse_package_config(text);
            let ghost views = config_entries(text@);
            let mut i: usize = 0;
            while i < entries.len()
                invariant
                    config_text == Some(text),
                    i <= entries@.len(),
                    entry_views(entries@) == views,
                    views == config_entries(text@),
                    forall|j: int| 0 <= j < i ==> views[j].uid != uid as int,
                decreases entries@.len() - i,
            {
                proof {
                    assert(entry_views(entries@)[i as int] == entries@[i as int]@);
                }
                if entries[i].uid == uid {
                    proof {
                        lemma_find_uid_first(views, uid as int, i as int);
                    }
                    return entries[i].exclude != 0;
                }
                i = i + 1;
            }
            proof {
                lemma_find_uid_absent(views, uid as int);
            }
            false
        },
    }
}

/// The unsigned value a 32-bit signed uid compares as against a filesystem
/// owner id.
pub open spec fn as_owner_id(uid: int) -> int {
    if uid < 0 {
        uid + 0x1_0000_0000
    } else {
        uid
    }
}

/// Answers whether `uid` owns the management application's data directory,
/// given that directory's filesystem owner id, or `None` where the
/// directory could not be inspected. Fail-closed: an absent directory
/// answers `false`.
pub fn uid_is_manager(dir_owner: Option<u32>, uid: i32) -> (r: bool)
    ensures
        r == match dir_owner {
            Some(owner) => owner as int == as_owner_id(uid as int),
            None => false,
        },
{
    match dir_owner {
        None => false,
        Some(owner) => {
            if uid >= 0 {
                owner == uid as u32
            } else {
                owner as i64 == uid as i64 + 0x1_0000_0000i64
            }
        },
    }
}

} // verus!
