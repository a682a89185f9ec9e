//! The Password Safe engine: reading entries out of the decrypted field
//! stream, and replaying that stream with only the rotated passwords changed.
use vstd::prelude::*;
use vstd::utf8::*;
use vstd::string::StrSliceExecFns;
use crate::model::{DBEntry, EntryView, IdentityView, ThreadResult, Uuid, empty_entry_view, entries_view, settled};

verus! {

/// Field tags of a record that the engine reads.
pub const TAG_UUID: u8 = 0x01;
pub const TAG_USERNAME: u8 = 0x04;
pub const TAG_PASSWORD: u8 = 0x06;
pub const TAG_URL: u8 = 0x0d;
/// Ends the header, and ends each record.
pub const TAG_END: u8 = 0xff;
/// The header's version field.
pub const TAG_VERSION: u8 = 0x00;

/// What a record field is, as far as the engine cares.
#[derive(Debug)]
pub enum FieldKind {
    Uuid([u8; 16]),
    Username(String),
    Password(String),
    Url(String),
    EndOfRecord,
    Other,
}

/// Record tags whose payload is text.
pub open spec fn is_text_tag(tag: u8) -> bool {
    (0x02 <= tag <= 0x06) || (0x0d <= tag <= 0x10) || tag == 0x12 || tag == 0x14 || tag == 0x16
        || tag == 0x18 || (0x1c <= tag <= 0x20)
}

/// Record tags whose payload is a 32-bit number.
pub open spec fn is_u32_tag(tag: u8) -> bool {
    (0x07 <= tag <= 0x0a) || tag == 0x0c || tag == 0x11 || tag == 0x19
}

/// Record tags whose payload is a 16-bit number.
pub open spec fn is_u16_tag(tag: u8) -> bool {
    tag == 0x13 || tag == 0x17
}

/// Whether the format accepts a record field with this tag and payload.
pub open spec fn field_accepted(tag: u8, data: Seq<u8>) -> bool {
    if tag == TAG_UUID {
        data.len() == 16
    } else if is_text_tag(tag) {
        valid_utf8(data)
    } else if is_u32_tag(tag) {
        data.len() == 4
    } else if is_u16_tag(tag) {
        data.len() == 2
    } else if tag == 0x15 {
        data.len() == 1
    } else {
        true
    }
}

/// The kind that an accepted field with this tag and payload has.
pub open spec fn kind_of(tag: u8, data: Seq<u8>, k: FieldKind) -> bool {
    match k {
        FieldKind::Uuid(u) => tag == TAG_UUID && u@ == data,
        FieldKind::Username(s) => tag == TAG_USERNAME && s@ == decode_utf8(data),
        FieldKind::Password(s) => tag == TAG_PASSWORD && s@ == decode_utf8(data),
        FieldKind::Url(s) => tag == TAG_URL && s@ == decode_utf8(data),
        FieldKind::EndOfRecord => tag == TAG_END,
        FieldKind::Other => tag != TAG_UUID && tag != TAG_USERNAME && tag != TAG_PASSWORD && tag
            != TAG_URL && tag != TAG_END,
    }
}

/// Relies on pwsafer's `PwsafeRecordField::new`, which decodes a record field
/// by its tag: a 16-byte identifier, UTF-8 text, a fixed-size number, or raw
/// bytes, and refuses a payload of the wrong size or invalid text.
#[verifier::external_body]
fn classify_field(tag: u8, data: &Vec<u8>) -> (r: Option<FieldKind>)
    ensures
        r is Some <==> field_accepted(tag, data@),
        r matches Some(k) ==> kind_of(tag, data@, k),
{
    match pwsafer::PwsafeRecordField::new(tag, data.clone()) {
        Ok(pwsafer::PwsafeRecordField::Uuid(u)) => Some(FieldKind::Uuid(u)),
        Ok(pwsafer::PwsafeRecordField::Username(s)) => Some(FieldKind::Username(s)),
        Ok(pwsafer::PwsafeRecordField::Password(s)) => Some(FieldKind::Password(s)),
        Ok(pwsafer::PwsafeRecordField::Url(s)) => Some(FieldKind::Url(s)),
        Ok(pwsafer::PwsafeRecordField::EndOfRecord) => Some(FieldKind::EndOfRecord),
        Ok(_) => Some(FieldKind::Other),
        Err(_) => None,
    }
}

/// The mathematical form of a field stream.
pub open spec fn stream_view(s: Seq<(u8, Vec<u8>)>) -> Seq<(u8, Seq<u8>)> {
    s.map_values(|f: (u8, Vec<u8>)| (f.0, f.1@))
}

/// Where a scan of the stream stands: whether the header is behind it, the
/// record read so far, the entries completed, and the record fields kept.
pub struct ScanState {
    pub header_done: bool,
    pub current: EntryView,
    pub entries: Seq<EntryView>,
    pub kept: Seq<(u8, Seq<u8>)>,
}

/// A record becomes an entry only with a site, a username and a password.
pub open spec fn complete(e: EntryView) -> bool {
    e.url.len() > 0 && e.username.len() > 0 && e.old_password.len() > 0
}

pub open spec fn scan_start() -> ScanState {
    ScanState {
        header_done: false,
        current: empty_entry_view(),
        entries: Seq::empty(),
        kept: Seq::empty(),
    }
}

/// One field read: header fields are passed over up to the end-of-header
/// field. Every field after it is kept as read, known or not; one that the
/// format accepts also fills in the current record, or completes it.
pub open spec fn scan_step(st: ScanState, tag: u8, data: Seq<u8>) -> ScanState {
    if !st.header_done {
        ScanState { header_done: tag == TAG_END, ..st }
    } else {
        let kept = st.kept.push((tag, data));
        let cur = st.current;
        if !field_accepted(tag, data) {
            ScanState { kept, ..st }
        } else if tag == TAG_URL {
            ScanState { kept, current: EntryView { url: decode_utf8(data), ..cur }, ..st }
        } else if tag == TAG_USERNAME {
            ScanState { kept, current: EntryView { username: decode_utf8(data), ..cur }, ..st }
        } else if tag == TAG_PASSWORD {
            ScanState { kept, current: EntryView { old_password: decode_utf8(data), ..cur }, ..st }
        } else if tag == TAG_UUID {
            ScanState { kept, current: EntryView { uuid: IdentityView::Pwsafe(data), ..cur }, ..st }
        } else if tag == TAG_END {
            ScanState {
                header_done: true,
                current: empty_entry_view(),
                entries: if complete(cur) {
                    st.entries.push(cur)
                } else {
                    st.entries
                },
                kept,
            }
        } else {
            ScanState { kept, ..st }
        }
    }
}

/// The scan of a whole stream, field by field.
pub open spec fn scan(fields: Seq<(u8, Seq<u8>)>) -> ScanState
    decreases fields.len(),
{
    if fields.len() == 0 {
        scan_start()
    } else {
        let last = fields.last();
        scan_step(scan(fields.drop_last()), last.0, last.1)
    }
}

/// A copy of a byte string.
fn copy_bytes(b: &[u8]) -> (r: Vec<u8>)
    ensures
        r@ == b@,
{
    vstd::slice::slice_to_vec(b)
}

/// Reads the entries out of the decrypted field stream that follows the
/// version field, and keeps every field after the header, in order and byte
/// for byte, known tags or not, so that the stream can be written back. New
/// secrets are left empty.
pub fn parse_records(fields: &Vec<(u8, Vec<u8>)>) -> (r: (Vec<DBEntry>, Vec<(u8, Vec<u8>)>))
    ensures
        entries_view(r.0@) == scan(stream_view(fields@)).entries,
        stream_view(r.1@) == scan(stream_view(fields@)).kept,
{
    let ghost all = stream_view(fields@);
    let mut header_done = false;
    let mut current = DBEntry::empty();
    let mut entries: Vec<DBEntry> = Vec::new();
    let mut kept: Vec<(u8, Vec<u8>)> = Vec::new();
    for i in 0..fields.len()
        invariant
            all == stream_view(fields@),
            ({
                let st = scan(all.take(i as int));
                &&& st.header_done == header_done
                &&& st.current == current@
                &&& st.entries == entries_view(entries@)
                &&& st.kept == stream_view(kept@)
            }),
    {
        let ghost before = scan(all.take(i as int));
        assert(all.take(i + 1).drop_last() =~= all.take(i as int));
        let tag = fields[i].0;
        let data = &fields[i].1;
        if !header_done {
            if tag == TAG_END {
                header_done = true;
            }
        } else {
            kept.push((tag, copy_bytes(data.as_slice())));
            match classify_field(tag, data) {
                None => {},
                Some(kind) => {
                    match kind {
                        FieldKind::Url(s) => {
                            current.url = s;
                        },
                        FieldKind::Username(s) => {
                            current.username = s;
                        },
                        FieldKind::Password(s) => {
                            current.old_password = s;
                        },
                        FieldKind::Uuid(u) => {
                            current.uuid = Uuid::Pwsafe(u);
                        },
                        FieldKind::EndOfRecord => {
                            let done = current;
                            current = DBEntry::empty();
                            if done.url.as_str().unicode_len() > 0
                                && done.username.as_str().unicode_len() > 0
                                && done.old_password.as_str().unicode_len() > 0 {
                                entries.push(done);
                            }
                        },
                        FieldKind::Other => {},
                    }
                },
            }
        }
        assert(scan(all.take(i + 1)) == scan_step(before, all[i as int].0, all[i as int].1));
        assert(entries_view(entries@) =~= scan(all.take(i + 1)).entries);
        assert(stream_view(kept@) =~= scan(all.take(i + 1)).kept);
    }
    assert(all.take(fields@.len() as int) =~= all);
    (entries, kept)
}

/// The entry whose identity is the record identifier `id`; the last such
/// entry where several share it.
pub open spec fn rotation_for(db: Seq<EntryView>, id: Seq<u8>) -> Option<EntryView>
    decreases db.len(),
{
    if db.len() == 0 {
        None
    } else if db.last().uuid == IdentityView::Pwsafe(id) {
        Some(db.last())
    } else {
        rotation_for(db.drop_last(), id)
    }
}

/// Whether an entry carries a new secret to write: one that is not empty
/// and differs from the one it had.
pub open spec fn is_rotated(e: EntryView) -> bool {
    e.new_password.len() > 0 && e.new_password != e.old_password
}

/// The payload written for a field, given the entry that the current
/// record's identifier matched: a password field of a rotated entry gets the
/// entry's new secret, every other field keeps its bytes.
pub open spec fn replayed_payload(cur: Option<EntryView>, tag: u8, data: Seq<u8>) -> Seq<u8> {
    if tag == TAG_PASSWORD && cur is Some && is_rotated(cur.unwrap()) {
        encode_utf8(cur.unwrap().new_password)
    } else {
        data
    }
}

/// The matched entry after a field: an identifier field looks its entry up,
/// the end of a record forgets it.
pub open spec fn replay_match(cur: Option<EntryView>, db: Seq<EntryView>, tag: u8, data: Seq<u8>) -> Option<EntryView> {
    if tag == TAG_UUID && data.len() == 16 {
        rotation_for(db, data)
    } else if tag == TAG_END {
        None
    } else {
        cur
    }
}

/// Replaying a stream against the updated entries: the entry matched at its
/// end, and the fields to write.
pub open spec fn replay(records: Seq<(u8, Seq<u8>)>, db: Seq<EntryView>) -> (Option<EntryView>, Seq<(u8, Seq<u8>)>)
    decreases records.len(),
{
    if records.len() == 0 {
        (None, Seq::empty())
    } else {
        let prev = replay(records.drop_last(), db);
        let f = records.last();
        (replay_match(prev.0, db, f.0, f.1), prev.1.push((f.0, replayed_payload(prev.0, f.0, f.1))))
    }
}

/// The two header fields written before the records: the version, low byte
/// first, and the end of the header.
pub open spec fn header_fields(version: u16) -> Seq<(u8, Seq<u8>)> {
    seq![
        (TAG_VERSION, seq![(version % 256) as u8, (version / 256) as u8]),
        (TAG_END, seq![0u8, 0u8]),
    ]
}

/// The whole stream written back.
pub open spec fn rewritten(version: u16, records: Seq<(u8, Seq<u8>)>, db: Seq<EntryView>) -> Seq<(u8, Seq<u8>)> {
    header_fields(version) + replay(records, db).1
}

/// Whether two identifiers are the same sixteen bytes.
fn same_id(a: &[u8; 16], b: &[u8]) -> (r: bool)
    ensures
        r == (a@ == b@),
{
    if b.len() != 16 {
        return false;
    }
    let mut i: usize = 0;
    while i < 16
        invariant
            b@.len() == 16,
            a@.len() == 16,
            i <= 16,
            forall|k: int| 0 <= k < i ==> a@[k] == b@[k],
        decreases 16 - i,
    {
        if a[i] != b[i] {
            return false;
        }
        i = i + 1;
    }
    assert(a@ =~= b@);
    true
}

/// The entry of `db` whose identity is the record identifier `id`.
fn find_rotation<'a>(db: &'a Vec<DBEntry>, id: &[u8]) -> (r: Option<&'a DBEntry>)
    ensures
        match r {
            Some(e) => rotation_for(entries_view(db@), id@) == Some(e@),
            None => rotation_for(entries_view(db@), id@) is None,
        },
{
    let ghost all = entries_view(db@);
    let mut found: Option<&DBEntry> = None;
    for i in 0..db.len()
        invariant
            all == entries_view(db@),
            match found {
                Some(e) => rotation_for(all.take(i as int), id@) == Some(e@),
                None => rotation_for(all.take(i as int), id@) is None,
            },
    {
        assert(all.take(i + 1).drop_last() =~= all.take(i as int));
        let hit = match db[i].uuid {
            Uuid::Pwsafe(u) => same_id(&u, id),
            _ => false,
        };
        if hit {
            found = Some(&db[i]);
        }
    }
    assert(all.take(db@.len() as int) =~= all);
    found
}

/// Writes the stream back: the version field, the end of the header, then
/// every kept field as it was read, except that the password field of a
/// record whose identifier matches a rotated entry carries that entry's new
/// secret.
pub fn rewrite_records(version: u16, records: &Vec<(u8, Vec<u8>)>, db: &Vec<DBEntry>) -> (r: Vec<(u8, Vec<u8>)>)
    ensures
        stream_view(r@) == rewritten(version, stream_view(records@), entries_view(db@)),
{
    let ghost all = stream_view(records@);
    let ghost dbv = entries_view(db@);
    let mut out: Vec<(u8, Vec<u8>)> = Vec::new();
    out.push((TAG_VERSION, vec![(version % 256) as u8, (version / 256) as u8]));
    out.push((TAG_END, vec![0u8, 0u8]));
    let mut cur: Option<&DBEntry> = None;
    for i in 0..records.len()
        invariant
            all == stream_view(records@),
            dbv == entries_view(db@),
            ({
                let st = replay(all.take(i as int), dbv);
                &&& stream_view(out@) == header_fields(version) + st.1
                &&& match cur {
                    Some(e) => st.0 == Some(e@),
                    None => st.0 is None,
                }
            }),
    {
        let ghost before = replay(all.take(i as int), dbv);
        assert(all.take(i + 1).drop_last() =~= all.take(i as int));
        let tag = records[i].0;
        let data = &records[i].1;
        let payload = if tag == TAG_PASSWORD {
            match cur {
                Some(e) => {
                    if e.new_password.as_str().unicode_len() > 0 && !(e.new_password == e.old_password) {
                        copy_bytes(e.new_password.as_str().as_bytes())
                    } else {
                        copy_bytes(data.as_slice())
                    }
                },
                None => copy_bytes(data.as_slice()),
            }
        } else {
            copy_bytes(data.as_slice())
        };
        assert(payload@ == replayed_payload(before.0, all[i as int].0, all[i as int].1));
        let ghost out_before = out@;
        out.push((tag, payload));
        assert(stream_view(out@) =~= stream_view(out_before).push((tag, payload@)));
        assert(replay(all.take(i + 1), dbv).1 == before.1.push((tag, payload@)));
        if tag == TAG_UUID && data.len() == 16 {
            cur = find_rotation(db, data.as_slice());
        } else if tag == TAG_END {
            cur = None;
        }
        assert(stream_view(out@) =~= header_fields(version) + replay(all.take(i + 1), dbv).1);
    }
    assert(all.take(records@.len() as int) =~= all);
    out
}

/// The entry that the record identifier read before field `k` matched.
pub open spec fn matched_at(records: Seq<(u8, Seq<u8>)>, db: Seq<EntryView>, k: int) -> Option<EntryView> {
    replay(records.take(k), db).0
}

/// Field `k` of a replay is field `k` of the records, with the payload that
/// the entry matched before it gives.
proof fn lemma_replay_at(records: Seq<(u8, Seq<u8>)>, db: Seq<EntryView>)
    ensures
        replay(records, db).1.len() == records.len(),
        forall|k: int|
            0 <= k < records.len() ==> #[trigger] replay(records, db).1[k] == (
                records[k].0,
                replayed_payload(matched_at(records, db, k), records[k].0, records[k].1),
            ),
    decreases records.len(),
{
    if records.len() > 0 {
        let prev = records.drop_last();
        lemma_replay_at(prev, db);
        assert forall|k: int| 0 <= k < records.len() implies #[trigger] replay(records, db).1[k] == (
            records[k].0,
            replayed_payload(matched_at(records, db, k), records[k].0, records[k].1),
        ) by {
            if k < prev.len() {
                assert(records.take(k) =~= prev.take(k));
                assert(replay(records, db).1[k] == replay(prev, db).1[k]);
            } else {
                assert(records.take(k) =~= prev);
            }
        }
    }
}

/// Rewriting writes the two header fields and then, in order, one field for
/// each kept record field, with the same tag. Every field keeps its payload
/// byte for byte, except a password field of a record whose identifier
/// matched an entry with a new secret: that one carries the new secret.
pub proof fn lemma_rewrite_preserves_untouched(version: u16, records: Seq<(u8, Seq<u8>)>, db: Seq<EntryView>)
    ensures
        rewritten(version, records, db).len() == records.len() + 2,
        forall|k: int| 0 <= k < records.len() ==> (#[trigger] rewritten(version, records, db)[k + 2]).0 == records[k].0,
        forall|k: int|
            0 <= k < records.len() && !(records[k].0 == TAG_PASSWORD && matched_at(records, db, k) is Some
                && is_rotated(matched_at(records, db, k).unwrap())) ==> #[trigger] rewritten(version, records, db)[k + 2]
                == records[k],
        forall|k: int|
            0 <= k < records.len() && records[k].0 == TAG_PASSWORD && matched_at(records, db, k) is Some
                && is_rotated(matched_at(records, db, k).unwrap()) ==> #[trigger] rewritten(version, records, db)[k + 2]
                == (TAG_PASSWORD, encode_utf8(matched_at(records, db, k).unwrap().new_password)),
{
    lemma_replay_at(records, db);
    let out = rewritten(version, records, db);
    assert forall|k: int| 0 <= k < records.len() implies #[trigger] out[k + 2] == replay(records, db).1[k] by {}
}

/// Every entry that an identifier looks up is one of the entries.
proof fn lemma_rotation_for_member(db: Seq<EntryView>, id: Seq<u8>)
    ensures
        rotation_for(db, id) matches Some(e) ==> exists|i: int| 0 <= i < db.len() && db[i] == e,
    decreases db.len(),
{
    if db.len() > 0 {
        lemma_rotation_for_member(db.drop_last(), id);
        if db.last().uuid != IdentityView::Pwsafe(id) {
            if let Some(e) = rotation_for(db, id) {
                let i = choose|i: int| 0 <= i < db.drop_last().len() && db.drop_last()[i] == e;
                assert(db[i] == e);
            }
        } else {
            assert(db[db.len() - 1] == db.last());
        }
    }
}

/// With no entry holding a new secret, a replay matches only entries without
/// one and writes every field back unchanged.
proof fn lemma_replay_unrotated(records: Seq<(u8, Seq<u8>)>, db: Seq<EntryView>)
    requires
        forall|i: int| 0 <= i < db.len() ==> !is_rotated(#[trigger] db[i]),
    ensures
        replay(records, db).1 == records,
        replay(records, db).0 matches Some(e) ==> !is_rotated(e),
    decreases records.len(),
{
    if records.len() > 0 {
        lemma_replay_unrotated(records.drop_last(), db);
        let f = records.last();
        lemma_rotation_for_member(db, f.1);
        assert(replay(records, db).1 =~= records);
    }
}

/// A store in which no entry was rotated (every job failed, so every new
/// secret was set back to the old one) is written back as the version
/// field, the end of the header, and the kept record fields unchanged.
pub proof fn lemma_no_rotation_round_trip(version: u16, records: Seq<(u8, Seq<u8>)>, db: Seq<EntryView>)
    requires
        forall|i: int| 0 <= i < db.len() ==> !is_rotated(#[trigger] db[i]),
    ensures
        rewritten(version, records, db) == header_fields(version) + records,
{
    lemma_replay_unrotated(records, db);
}

/// A parse and rewrite cycle in which no job succeeded gives back the kept
/// record fields byte for byte, behind the version field and the end of the
/// header: the store settled from failed jobs holds no new secret.
pub proof fn lemma_failed_run_round_trip(version: u16, records: Seq<(u8, Seq<u8>)>, results: Seq<ThreadResult>, db: Seq<DBEntry>)
    requires
        db.len() == results.len(),
        forall|i: int| 0 <= i < results.len() ==> #[trigger] db[i]@ == settled(results[i]),
        forall|i: int| 0 <= i < results.len() ==> !(#[trigger] results[i].result.spec_succeeded()),
    ensures
        rewritten(version, records, entries_view(db)) == header_fields(version) + records,
{
    let dbv = entries_view(db);
    assert forall|i: int| 0 <= i < dbv.len() implies !is_rotated(#[trigger] dbv[i]) by {
        assert(db[i]@ == settled(results[i]));
        assert(!results[i].result.spec_succeeded());
    }
    lemma_no_rotation_round_trip(version, records, dbv);
}

/// Before the end of the header nothing is kept and no entry is read.
proof fn lemma_scan_header(h: Seq<(u8, Seq<u8>)>)
    requires
        forall|i: int| 0 <= i < h.len() ==> (#[trigger] h[i]).0 != TAG_END,
    ensures
        !scan(h).header_done,
        scan(h).kept == Seq::<(u8, Seq<u8>)>::empty(),
    decreases h.len(),
{
    if h.len() > 0 {
        let prev = h.drop_last();
        assert forall|i: int| 0 <= i < prev.len() implies (#[trigger] prev[i]).0 != TAG_END by {
            assert(prev[i] == h[i]);
        }
        lemma_scan_header(prev);
        assert(h[h.len() - 1] == h.last());
    }
}

/// After the header, every field is kept, in order.
proof fn lemma_scan_records(base: Seq<(u8, Seq<u8>)>, recs: Seq<(u8, Seq<u8>)>)
    requires
        scan(base).header_done,
    ensures
        scan(base + recs).header_done,
        scan(base + recs).kept == scan(base).kept + recs,
    decreases recs.len(),
{
    if recs.len() == 0 {
        assert(base + recs =~= base);
    } else {
        let prev = recs.drop_last();
        lemma_scan_records(base, prev);
        assert((base + recs).drop_last() =~= base + prev);
        assert((base + recs).last() == recs.last());
        assert(recs[recs.len() - 1] == recs.last());
        assert(scan(base + prev).kept.push(recs.last()) =~= scan(base).kept + recs);
    }
}

/// A container round-tripped with no rotated entry comes back with its
/// records byte for byte: where the stream read after the version field is
/// header fields, the end of the header, then any record fields, known or
/// not, the stream written back is the version field, the end of the header,
/// and those same record fields in the same order.
pub proof fn lemma_container_round_trip(
    version: u16,
    header: Seq<(u8, Seq<u8>)>,
    end: Seq<u8>,
    records: Seq<(u8, Seq<u8>)>,
    db: Seq<EntryView>,
)
    requires
        forall|i: int| 0 <= i < header.len() ==> (#[trigger] header[i]).0 != TAG_END,
        forall|i: int| 0 <= i < db.len() ==> !is_rotated(#[trigger] db[i]),
    ensures
        rewritten(version, scan(header.push((TAG_END, end)) + records).kept, db) == header_fields(version) + records,
{
    let base = header.push((TAG_END, end));
    lemma_scan_header(header);
    assert(base.drop_last() =~= header);
    assert(scan(base).header_done);
    assert(scan(base).kept == Seq::<(u8, Seq<u8>)>::empty());
    lemma_scan_records(base, records);
    assert(scan(base + records).kept =~= records);
    lemma_no_rotation_round_trip(version, records, db);
}

} // verus!
