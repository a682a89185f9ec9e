//! The KDBX engine's logic: turning the container's entries into store
//! entries, and resolving field references between entries.
use vstd::prelude::*;
use vstd::string::{StrSliceExecFns, StringExecFns};
use crate::model::{DBEntry, EntryView, IdentityView, ThreadResult, Uuid, entries_view};
use crate::secrets::{given_new_secrets, with_new_secrets};

verus! {

/// An entry as the KDBX container holds it: its identifier and the fields
/// the engine reads, each of which may be absent.
#[derive(Debug, Clone)]
pub struct KdbxRecord {
    pub uuid: [u8; 16],
    pub url: Option<String>,
    pub username: Option<String>,
    pub password: Option<String>,
}

/// Why an entry or a reference could not be read.
#[derive(Debug, Clone, PartialEq, Eq)]
pub enum Error {
    /// The entry has no site.
    UrlMissing,
    /// The entry for this site lacks a username or a password.
    CredentialMissing { url: String },
    /// An identity of another engine was found where a KDBX one was needed.
    WrongUuidType,
    /// A reference names no entry, or is malformed.
    EntryReference,
    /// A chain of references comes back to an entry it already visited.
    CyclicReference,
}

/// The text of an optional field, empty where it is absent.
pub open spec fn text_or_empty(s: Option<String>) -> Seq<char> {
    match s {
        Some(t) => t@,
        None => Seq::empty(),
    }
}

/// Whether a container entry has no site, or an empty one.
pub open spec fn url_missing(r: KdbxRecord) -> bool {
    r.url is None || r.url.unwrap()@.len() == 0
}

/// What a container entry yields: an error without a site, or without a
/// username or password; otherwise the store entry with the KDBX identity
/// and no new secret yet.
pub open spec fn spec_parse_db_entry(r: KdbxRecord) -> Result<EntryView, ()> {
    if url_missing(r) {
        Err(())
    } else if text_or_empty(r.username).len() == 0 || text_or_empty(r.password).len() == 0 {
        Err(())
    } else {
        Ok(
            EntryView {
                url: r.url.unwrap()@,
                username: text_or_empty(r.username),
                old_password: text_or_empty(r.password),
                new_password: Seq::empty(),
                uuid: IdentityView::Kdbx(r.uuid@),
            },
        )
    }
}

fn text_or_empty_exec(s: &Option<String>) -> (r: String)
    ensures
        r@ == text_or_empty(*s),
{
    match s {
        Some(t) => t.clone(),
        None => String::new(),
    }
}

/// Reads one container entry into a store entry.
pub fn parse_db_entry(record: &KdbxRecord) -> (r: Result<DBEntry, Error>)
    ensures
        match r {
            Ok(e) => spec_parse_db_entry(*record) == Ok::<EntryView, ()>(e@),
            Err(Error::UrlMissing) => url_missing(*record),
            Err(Error::CredentialMissing { url }) => record.url == Some(url) && spec_parse_db_entry(
                *record,
            ) is Err,
            Err(_) => false,
        },
{
    let url = match &record.url {
        Some(u) => u.clone(),
        None => {
            return Err(Error::UrlMissing);
        },
    };
    if url.as_str().unicode_len() == 0 {
        return Err(Error::UrlMissing);
    }
    let username = text_or_empty_exec(&record.username);
    let old_password = text_or_empty_exec(&record.password);
    if username.as_str().unicode_len() == 0 || old_password.as_str().unicode_len() == 0 {
        return Err(Error::CredentialMissing { url });
    }
    let mut e = DBEntry::new(url, username, old_password, String::new());
    e.uuid = Uuid::Kdbx(record.uuid);
    Ok(e)
}

/// The entries that the container's entries yield, in order; an entry that
/// yields an error is left out.
pub open spec fn spec_parse_kdbx(records: Seq<KdbxRecord>) -> Seq<EntryView>
    decreases records.len(),
{
    if records.len() == 0 {
        Seq::empty()
    } else {
        let prev = spec_parse_kdbx(records.drop_last());
        match spec_parse_db_entry(records.last()) {
            Ok(e) => prev.push(e),
            Err(_) => prev,
        }
    }
}

/// Reads every container entry; returns the store entries and, in order,
/// the errors of the entries that were left out.
pub fn parse_kdbx_db(records: &Vec<KdbxRecord>) -> (r: (Vec<DBEntry>, Vec<Error>))
    ensures
        entries_view(r.0@) == spec_parse_kdbx(records@),
        r.0@.len() + r.1@.len() == records@.len(),
{
    let mut entries: Vec<DBEntry> = Vec::new();
    let mut errors: Vec<Error> = Vec::new();
    for i in 0..records.len()
        invariant
            entries_view(entries@) == spec_parse_kdbx(records@.take(i as int)),
            entries@.len() + errors@.len() == i,
    {
        assert(records@.take(i + 1).drop_last() =~= records@.take(i as int));
        match parse_db_entry(&records[i]) {
            Ok(e) => {
                entries.push(e);
            },
            Err(err) => {
                errors.push(err);
            },
        }
        assert(entries_view(entries@) =~= spec_parse_kdbx(records@.take(i + 1)));
    }
    assert(records@.take(records@.len() as int) =~= records@);
    (entries, errors)
}

/// Which text field of an entry a reference stands in.
#[derive(Debug, Clone, Copy, PartialEq, Eq)]
pub enum Field {
    Username,
    OldPassword,
    NewPassword,
}

pub open spec fn field_of(e: EntryView, f: Field) -> Seq<char> {
    match f {
        Field::Username => e.username,
        Field::OldPassword => e.old_password,
        Field::NewPassword => e.new_password,
    }
}

fn field_exec(e: &DBEntry, f: Field) -> (r: &String)
    ensures
        r@ == field_of(e@, f),
{
    match f {
        Field::Username => &e.username,
        Field::OldPassword => &e.old_password,
        Field::NewPassword => &e.new_password,
    }
}

/// A reference has the shape `{REF:` ... `}`.
pub open spec fn is_reference(t: Seq<char>) -> bool {
    &&& t.len() >= 6
    &&& t[0] == '{' && t[1] == 'R' && t[2] == 'E' && t[3] == 'F' && t[4] == ':'
    &&& t[t.len() - 1] == '}'
}

/// What stands between `{REF:` and `}`.
pub open spec fn reference_body(t: Seq<char>) -> Seq<char> {
    t.subrange(5, t.len() - 1)
}

pub open spec fn is_separator(c: char) -> bool {
    c == '@' || c == ':'
}

/// The `n`-th piece of `s` cut at every `@` and `:`, counting from zero.
pub open spec fn segment(s: Seq<char>, n: nat) -> Option<Seq<char>>
    decreases s.len(),
{
    if s.len() == 0 {
        if n == 0 {
            Some(Seq::empty())
        } else {
            None
        }
    } else if is_separator(s[0]) {
        if n == 0 {
            Some(Seq::empty())
        } else {
            segment(s.drop_first(), (n - 1) as nat)
        }
    } else if n == 0 {
        Some(seq![s[0]] + segment(s.drop_first(), 0).unwrap())
    } else {
        segment(s.drop_first(), n)
    }
}

/// The identifier that a reference `{REF:<field>@I:<identifier>}` names: the
/// third piece of its body.
pub open spec fn reference_identifier(t: Seq<char>) -> Option<Seq<char>> {
    segment(reference_body(t), 2)
}

proof fn lemma_segment_zero(s: Seq<char>)
    ensures
        segment(s, 0) is Some,
    decreases s.len(),
{
    if s.len() > 0 {
        lemma_segment_zero(s.drop_first());
    }
}

/// The identifier of the reference `t`, which is a reference.
fn identifier_of(t: &str) -> (r: Option<String>)
    requires
        is_reference(t@),
    ensures
        match r {
            Some(id) => reference_identifier(t@) == Some(id@),
            None => reference_identifier(t@) is None,
        },
{
    let len = t.unicode_len();
    let body = t.substring_char(5, len - 1);
    let ghost b = body@;
    assert(b == reference_body(t@));
    assert(b.skip(0) =~= b);
    let n = body.unicode_len();
    let mut i: usize = 0;
    let mut left: usize = 2;
    while left > 0
        invariant
            b == body@,
            b == reference_body(t@),
            n == b.len(),
            i <= n,
            left <= 2,
            segment(b, 2) == segment(b.skip(i as int), left as nat),
        decreases n - i,
    {
        if i == n {
            assert(b.skip(i as int).len() == 0);
            assert(segment(b.skip(i as int), left as nat) is None);
            assert(segment(b, 2) is None);
            assert(reference_identifier(t@) is None);
            return None;
        }
        let c = body.get_char(i);
        assert(b.skip(i as int).drop_first() =~= b.skip(i + 1));
        assert(b.skip(i as int)[0] == c);
        if c == '@' || c == ':' {
            left = left - 1;
        }
        i = i + 1;
    }
    let start = i;
    proof {
        lemma_segment_zero(b.skip(start as int));
    }
    assert(b.subrange(start as int, start as int) + segment(b.skip(start as int), 0).unwrap() =~= segment(b.skip(start as int), 0).unwrap());
    while i < n
        invariant
            b == body@,
            b == reference_body(t@),
            n == b.len(),
            start <= i <= n,
            segment(b.skip(i as int), 0) is Some,
            segment(b, 2) == Some(b.subrange(start as int, i as int) + segment(b.skip(i as int), 0).unwrap()),
        decreases n - i,
    {
        let c = body.get_char(i);
        assert(b.skip(i as int).drop_first() =~= b.skip(i + 1));
        assert(b.skip(i as int)[0] == c);
        if c == '@' || c == ':' {
            assert(b.subrange(start as int, i as int) + segment(b.skip(i as int), 0).unwrap() =~= b.subrange(start as int, i as int));
            let piece = body.substring_char(start, i);
            assert(segment(b.skip(i as int), 0) == Some(Seq::<char>::empty()));
            assert(reference_identifier(t@) == Some(piece@));
            return Some(String::from_str(piece));
        }
        proof {
            lemma_segment_zero(b.skip(i + 1));
        }
        assert(b.subrange(start as int, i as int) + segment(b.skip(i as int), 0).unwrap() =~= b.subrange(start as int, i + 1) + segment(b.skip(i + 1), 0).unwrap());
        i = i + 1;
    }
    assert(b.skip(n as int).len() == 0);
    assert(b.subrange(start as int, n as int) + segment(b.skip(n as int), 0).unwrap() =~= b.subrange(start as int, n as int));
    Some(String::from_str(body.substring_char(start, n)))
}

/// Whether `t` is a reference.
fn is_reference_exec(t: &str) -> (r: bool)
    ensures
        r == is_reference(t@),
{
    let len = t.unicode_len();
    if len < 6 {
        return false;
    }
    t.get_char(0) == '{' && t.get_char(1) == 'R' && t.get_char(2) == 'E' && t.get_char(3) == 'F'
        && t.get_char(4) == ':' && t.get_char(len - 1) == '}'
}

pub open spec fn hex_lower() -> Seq<char> {
    seq!['0', '1', '2', '3', '4', '5', '6', '7', '8', '9', 'a', 'b', 'c', 'd', 'e', 'f']
}

pub open spec fn hex_upper() -> Seq<char> {
    seq!['0', '1', '2', '3', '4', '5', '6', '7', '8', '9', 'A', 'B', 'C', 'D', 'E', 'F']
}

/// The value of the `k`-th hexadecimal digit of the bytes `u`, high half of
/// each byte first.
pub open spec fn nibble(u: Seq<u8>, k: int) -> int {
    if k % 2 == 0 {
        u[k / 2] as int / 16
    } else {
        u[k / 2] as int % 16
    }
}

/// Whether `id` is the 32-digit hexadecimal form of the identifier `u`,
/// ignoring the case of the letters.
pub open spec fn id_matches(id: Seq<char>, u: Seq<u8>) -> bool {
    &&& id.len() == 32
    &&& u.len() == 16
    &&& forall|k: int|
        0 <= k < 32 ==> #[trigger] id[k] == hex_lower()[nibble(u, k)] || id[k] == hex_upper()[nibble(
            u,
            k,
        )]
}

/// Whether the identity of `e` is the KDBX identifier that `id` spells.
pub open spec fn entry_named(e: EntryView, id: Seq<char>) -> bool {
    match e.uuid {
        IdentityView::Kdbx(u) => id_matches(id, u),
        _ => false,
    }
}

/// The first entry whose identity `id` names.
pub open spec fn lookup(entries: Seq<EntryView>, id: Seq<char>) -> Option<int>
    decreases entries.len(),
{
    if entries.len() == 0 {
        None
    } else {
        match lookup(entries.drop_last(), id) {
            Some(j) => Some(j),
            None => if entry_named(entries.last(), id) {
                Some(entries.len() - 1)
            } else {
                None
            },
        }
    }
}

proof fn lemma_lookup_bounds(entries: Seq<EntryView>, id: Seq<char>)
    ensures
        lookup(entries, id) matches Some(j) ==> 0 <= j < entries.len() && entry_named(entries[j], id),
    decreases entries.len(),
{
    if entries.len() > 0 {
        lemma_lookup_bounds(entries.drop_last(), id);
    }
}

const HEX_LOWER: [char; 16] = ['0', '1', '2', '3', '4', '5', '6', '7', '8', '9', 'a', 'b', 'c', 'd', 'e', 'f'];

const HEX_UPPER: [char; 16] = ['0', '1', '2', '3', '4', '5', '6', '7', '8', '9', 'A', 'B', 'C', 'D', 'E', 'F'];

/// Whether `id` spells the identifier `u`.
fn id_matches_exec(id: &str, u: &[u8; 16]) -> (r: bool)
    ensures
        r == id_matches(id@, u@),
{
    if id.unicode_len() != 32 {
        return false;
    }
    assert(HEX_LOWER@ == hex_lower());
    assert(HEX_UPPER@ == hex_upper());
    let mut k: usize = 0;
    while k < 32
        invariant
            id@.len() == 32,
            u@.len() == 16,
            HEX_LOWER@ == hex_lower(),
            HEX_UPPER@ == hex_upper(),
            k <= 32,
            forall|j: int|
                0 <= j < k ==> #[trigger] id@[j] == hex_lower()[nibble(u@, j)] || id@[j]
                    == hex_upper()[nibble(u@, j)],
        decreases 32 - k,
    {
        let b = u[k / 2];
        let v: usize = if k % 2 == 0 {
            (b / 16) as usize
        } else {
            (b % 16) as usize
        };
        assert(v == nibble(u@, k as int));
        let c = id.get_char(k);
        if c != HEX_LOWER[v] && c != HEX_UPPER[v] {
            return false;
        }
        k = k + 1;
    }
    true
}

/// The index of the first entry whose identity `id` names.
fn find_entry(entries: &Vec<DBEntry>, id: &str) -> (r: Option<usize>)
    ensures
        match r {
            Some(j) => lookup(entries_view(entries@), id@) == Some(j as int),
            None => lookup(entries_view(entries@), id@) is None,
        },
{
    let ghost all = entries_view(entries@);
    for i in 0..entries.len()
        invariant
            all == entries_view(entries@),
            lookup(all.take(i as int), id@) is None,
    {
        assert(all.take(i + 1).drop_last() =~= all.take(i as int));
        let hit = match entries[i].uuid {
            Uuid::Kdbx(u) => id_matches_exec(id, &u),
            _ => false,
        };
        if hit {
            proof {
                lemma_lookup_prefix(all, id@, i as int + 1);
            }
            return Some(i);
        }
    }
    assert(all.take(entries@.len() as int) =~= all);
    None
}

/// Once the first match lies inside a prefix, the whole sequence has it too.
proof fn lemma_lookup_prefix(entries: Seq<EntryView>, id: Seq<char>, n: int)
    requires
        0 <= n <= entries.len(),
        lookup(entries.take(n), id) is Some,
    ensures
        lookup(entries, id) == lookup(entries.take(n), id),
    decreases entries.len() - n,
{
    if n < entries.len() {
        assert(entries.take(n + 1).drop_last() =~= entries.take(n));
        lemma_lookup_prefix(entries, id, n + 1);
    } else {
        assert(entries.take(n) =~= entries);
    }
}

/// Following the references of field `f` from the text `t`. `seen` holds the
/// entries visited so far; `fuel` bounds the walk by the number of entries
/// left to visit.
pub open spec fn walk(entries: Seq<EntryView>, f: Field, t: Seq<char>, seen: Set<int>, fuel: nat) -> Result<Seq<char>, Error>
    decreases fuel,
{
    if !is_reference(t) {
        Ok(t)
    } else {
        match reference_identifier(t) {
            None => Err(Error::EntryReference),
            Some(id) => match lookup(entries, id) {
                None => Err(Error::EntryReference),
                Some(j) => if seen.contains(j) || fuel == 0 {
                    Err(Error::CyclicReference)
                } else {
                    walk(entries, f, field_of(entries[j], f), seen.insert(j), (fuel - 1) as nat)
                },
            },
        }
    }
}

/// The value that the text `t` of field `f` stands for: itself where it is
/// no reference, else what the referenced entry's same field stands for.
pub open spec fn resolve(entries: Seq<EntryView>, f: Field, t: Seq<char>) -> Result<Seq<char>, Error> {
    walk(entries, f, t, Set::empty(), entries.len())
}

/// Resolves the text `text` of field `f` against the entries.
pub fn resolve_field(entries: &Vec<DBEntry>, f: Field, text: &String) -> (r: Result<String, Error>)
    ensures
        match r {
            Ok(v) => resolve(entries_view(entries@), f, text@) == Ok::<Seq<char>, Error>(v@),
            Err(e) => resolve(entries_view(entries@), f, text@) == Err::<Seq<char>, Error>(e),
        },
{
    let ghost all = entries_view(entries@);
    let n = entries.len();
    let mut visited: Vec<bool> = Vec::new();
    for k in 0..n
        invariant
            visited@.len() == k,
            forall|j: int| 0 <= j < k ==> !visited@[j],
    {
        visited.push(false);
    }
    let ghost mut seen: Set<int> = Set::empty();
    let mut fuel: usize = n;
    let mut cur: String = text.clone();
    loop
        invariant
            all == entries_view(entries@),
            n == entries@.len(),
            visited@.len() == n,
            forall|j: int| 0 <= j < n ==> (visited@[j] <==> seen.contains(j)),
            walk(all, f, cur@, seen, fuel as nat) == resolve(all, f, text@),
        decreases fuel,
    {
        if !is_reference_exec(cur.as_str()) {
            return Ok(cur);
        }
        let id = match identifier_of(cur.as_str()) {
            Some(id) => id,
            None => {
                return Err(Error::EntryReference);
            },
        };
        let j = match find_entry(entries, id.as_str()) {
            Some(j) => j,
            None => {
                return Err(Error::EntryReference);
            },
        };
        proof {
            lemma_lookup_bounds(all, id@);
        }
        if visited[j] || fuel == 0 {
            return Err(Error::CyclicReference);
        }
        visited.set(j, true);
        proof {
            seen = seen.insert(j as int);
        }
        fuel = fuel - 1;
        cur = field_exec(&entries[j], f).clone();
    }
}

/// An entry with its username, old and new secret resolved against the
/// entries; the first field that fails, in that order, gives the error.
pub open spec fn resolved_entry(entries: Seq<EntryView>, e: EntryView) -> Result<EntryView, Error> {
    match resolve(entries, Field::Username, e.username) {
        Err(x) => Err(x),
        Ok(u) => match resolve(entries, Field::OldPassword, e.old_password) {
            Err(x) => Err(x),
            Ok(o) => match resolve(entries, Field::NewPassword, e.new_password) {
                Err(x) => Err(x),
                Ok(n) => Ok(EntryView { username: u, old_password: o, new_password: n, ..e }),
            },
        },
    }
}

/// Resolves the references of every entry against all the entries. Each
/// entry gives its resolved form or the error that stopped it; one entry's
/// error leaves the others alone.
pub fn resolve_references(entries: &Vec<DBEntry>) -> (r: Vec<Result<DBEntry, Error>>)
    ensures
        r@.len() == entries@.len(),
        forall|i: int|
            0 <= i < entries@.len() ==> match #[trigger] r@[i] {
                Ok(e) => resolved_entry(entries_view(entries@), entries@[i]@) == Ok::<EntryView, Error>(e@),
                Err(x) => resolved_entry(entries_view(entries@), entries@[i]@) == Err::<EntryView, Error>(x),
            },
{
    let ghost all = entries_view(entries@);
    let mut out: Vec<Result<DBEntry, Error>> = Vec::new();
    for i in 0..entries.len()
        invariant
            all == entries_view(entries@),
            out@.len() == i,
            forall|k: int|
                0 <= k < i ==> match #[trigger] out@[k] {
                    Ok(e) => resolved_entry(all, entries@[k]@) == Ok::<EntryView, Error>(e@),
                    Err(x) => resolved_entry(all, entries@[k]@) == Err::<EntryView, Error>(x),
                },
    {
        let e = &entries[i];
        let item = match resolve_field(entries, Field::Username, &e.username) {
            Err(x) => Err(x),
            Ok(u) => match resolve_field(entries, Field::OldPassword, &e.old_password) {
                Err(x) => Err(x),
                Ok(o) => match resolve_field(entries, Field::NewPassword, &e.new_password) {
                    Err(x) => Err(x),
                    Ok(n) => {
                        let mut d = e.duplicate();
                        d.username = u;
                        d.old_password = o;
                        d.new_password = n;
                        Ok(d)
                    },
                },
            },
        };
        out.push(item);
    }
    out
}

/// The entry that the reference `t` leads to, if `t` is a reference whose
/// identifier names an entry.
pub open spec fn hop(entries: Seq<EntryView>, t: Seq<char>) -> Option<int> {
    if is_reference(t) {
        match reference_identifier(t) {
            Some(id) => lookup(entries, id),
            None => None,
        }
    } else {
        None
    }
}

/// The text reached after following `k` references of field `f` from `t`.
pub open spec fn chain_text(entries: Seq<EntryView>, f: Field, t: Seq<char>, k: nat) -> Seq<char>
    decreases k,
{
    if k == 0 {
        t
    } else {
        let p = chain_text(entries, f, t, (k - 1) as nat);
        match hop(entries, p) {
            Some(j) => field_of(entries[j], f),
            None => p,
        }
    }
}

/// The entries visited by the first `k` references followed from `t`.
pub open spec fn chain_seen(entries: Seq<EntryView>, f: Field, t: Seq<char>, k: nat) -> Set<int>
    decreases k,
{
    if k == 0 {
        Set::empty()
    } else {
        chain_seen(entries, f, t, (k - 1) as nat).insert(
            hop(entries, chain_text(entries, f, t, (k - 1) as nat)).unwrap(),
        )
    }
}

proof fn lemma_seen_holds_earlier(entries: Seq<EntryView>, f: Field, t: Seq<char>, a: nat, m: nat)
    requires
        a < m,
    ensures
        chain_seen(entries, f, t, m).contains(hop(entries, chain_text(entries, f, t, a)).unwrap()),
    decreases m,
{
    if a < m - 1 {
        lemma_seen_holds_earlier(entries, f, t, a, (m - 1) as nat);
    }
}

proof fn lemma_walk_cycle(entries: Seq<EntryView>, f: Field, t: Seq<char>, a: nat, b: nat, m: nat, fuel: nat)
    requires
        a < b,
        m <= b,
        forall|c: nat| c <= b ==> (#[trigger] hop(entries, chain_text(entries, f, t, c))) is Some,
        hop(entries, chain_text(entries, f, t, a)) == hop(entries, chain_text(entries, f, t, b)),
    ensures
        walk(entries, f, chain_text(entries, f, t, m), chain_seen(entries, f, t, m), fuel) == Err::<Seq<char>, Error>(Error::CyclicReference),
    decreases b - m,
{
    let cur = chain_text(entries, f, t, m);
    let seen = chain_seen(entries, f, t, m);
    assert(hop(entries, cur) is Some);
    let j = hop(entries, cur).unwrap();
    if m == b {
        lemma_seen_holds_earlier(entries, f, t, a, b);
    } else if !(seen.contains(j) || fuel == 0) {
        lemma_walk_cycle(entries, f, t, a, b, m + 1, (fuel - 1) as nat);
        assert(chain_text(entries, f, t, m + 1) == field_of(entries[j], f));
    }
}

/// Resolution stops on a cycle: where following the references of a field
/// from `t` reaches the same entry twice, every step on the way resolving,
/// the result is a cyclic-reference error rather than an endless walk.
pub proof fn lemma_cycle_is_error(entries: Seq<EntryView>, f: Field, t: Seq<char>, a: nat, b: nat)
    requires
        a < b,
        forall|c: nat| c <= b ==> (#[trigger] hop(entries, chain_text(entries, f, t, c))) is Some,
        hop(entries, chain_text(entries, f, t, a)) == hop(entries, chain_text(entries, f, t, b)),
    ensures
        resolve(entries, f, t) == Err::<Seq<char>, Error>(Error::CyclicReference),
{
    lemma_walk_cycle(entries, f, t, a, b, 0, entries.len());
}

/// A resolved value is never itself a reference.
pub proof fn lemma_resolved_is_plain(entries: Seq<EntryView>, f: Field, t: Seq<char>)
    ensures
        resolve(entries, f, t) matches Ok(v) ==> !is_reference(v),
{
    lemma_walk_plain(entries, f, t, Set::empty(), entries.len());
}

proof fn lemma_walk_plain(entries: Seq<EntryView>, f: Field, t: Seq<char>, seen: Set<int>, fuel: nat)
    ensures
        walk(entries, f, t, seen, fuel) matches Ok(v) ==> !is_reference(v),
    decreases fuel,
{
    if is_reference(t) && fuel > 0 {
        if let Some(id) = reference_identifier(t) {
            if let Some(j) = lookup(entries, id) {
                lemma_walk_plain(entries, f, field_of(entries[j], f), seen.insert(j), (fuel - 1) as nat);
            }
        }
    }
}

proof fn lemma_walk_acyclic(entries: Seq<EntryView>, f: Field, t: Seq<char>, k: nat, m: nat)
    requires
        m <= k,
        forall|c: nat| c < k ==> (#[trigger] hop(entries, chain_text(entries, f, t, c))) is Some,
        forall|c1: nat, c2: nat|
            c1 < c2 < k ==> #[trigger] hop(entries, chain_text(entries, f, t, c1)) != #[trigger] hop(
                entries,
                chain_text(entries, f, t, c2),
            ),
        !is_reference(chain_text(entries, f, t, k)),
        chain_seen(entries, f, t, m).finite(),
        chain_seen(entries, f, t, m).len() == m,
        forall|x: int| chain_seen(entries, f, t, m).contains(x) ==> 0 <= x < entries.len(),
    ensures
        walk(entries, f, chain_text(entries, f, t, m), chain_seen(entries, f, t, m), (entries.len() - m) as nat)
            == Ok::<Seq<char>, Error>(chain_text(entries, f, t, k)),
    decreases k - m,
{
    let cur = chain_text(entries, f, t, m);
    let seen = chain_seen(entries, f, t, m);
    if m < k {
        assert(hop(entries, cur) is Some);
        let j = hop(entries, cur).unwrap();
        let id = reference_identifier(cur).unwrap();
        lemma_lookup_bounds(entries, id);
        assert(!seen.contains(j)) by {
            if seen.contains(j) {
                lemma_seen_came_from(entries, f, t, m, j);
                let c = choose|c: nat| c < m && hop(entries, chain_text(entries, f, t, c)) == Some(j);
                assert(hop(entries, chain_text(entries, f, t, c)) != hop(entries, chain_text(entries, f, t, m)));
            }
        }
        let full = vstd::set_lib::set_int_range(0, entries.len() as int);
        vstd::set_lib::lemma_int_range(0, entries.len() as int);
        assert(seen.insert(j).subset_of(full));
        vstd::set_lib::lemma_len_subset(seen.insert(j), full);
        assert(chain_text(entries, f, t, m + 1) == field_of(entries[j], f));
        lemma_walk_acyclic(entries, f, t, k, m + 1);
    } else {
        assert(m == k);
    }
}

proof fn lemma_seen_came_from(entries: Seq<EntryView>, f: Field, t: Seq<char>, m: nat, x: int)
    requires
        chain_seen(entries, f, t, m).contains(x),
        forall|c: nat| c < m ==> (#[trigger] hop(entries, chain_text(entries, f, t, c))) is Some,
    ensures
        exists|c: nat| c < m && hop(entries, chain_text(entries, f, t, c)) == Some(x),
    decreases m,
{
    if m > 0 {
        let p = (m - 1) as nat;
        if chain_seen(entries, f, t, p).contains(x) {
            lemma_seen_came_from(entries, f, t, p, x);
            let c = choose|c: nat| c < p && hop(entries, chain_text(entries, f, t, c)) == Some(x);
            assert(c < m);
        } else {
            assert(hop(entries, chain_text(entries, f, t, p)) is Some);
            assert(hop(entries, chain_text(entries, f, t, p)).unwrap() == x);
        }
    }
}

/// Resolution on an acyclic chain ends at the ultimate value: where the
/// first `k` references followed from `t` all resolve, reach `k` different
/// entries, and the text then reached is no reference, resolution returns
/// that text.
pub proof fn lemma_acyclic_resolves(entries: Seq<EntryView>, f: Field, t: Seq<char>, k: nat)
    requires
        forall|c: nat| c < k ==> (#[trigger] hop(entries, chain_text(entries, f, t, c))) is Some,
        forall|c1: nat, c2: nat|
            c1 < c2 < k ==> #[trigger] hop(entries, chain_text(entries, f, t, c1)) != #[trigger] hop(
                entries,
                chain_text(entries, f, t, c2),
            ),
        !is_reference(chain_text(entries, f, t, k)),
    ensures
        resolve(entries, f, t) == Ok::<Seq<char>, Error>(chain_text(entries, f, t, k)),
{
    assert(chain_seen(entries, f, t, 0) =~= Set::<int>::empty());
    lemma_walk_acyclic(entries, f, t, k, 0);
}

/// A rotated entry to write back: the record with this identifier is
/// replaced by a new one with the same site and username and the new secret.
#[derive(Debug, Clone)]
pub struct KdbxUpdate {
    pub uuid: [u8; 16],
    pub url: String,
    pub username: String,
    pub password: String,
}

/// The fields of an update: record identifier, site, username, new secret.
pub type UpdateFields = (Seq<u8>, Seq<char>, Seq<char>, Seq<char>);

/// What the write-back does for each job result, in order: nothing for a
/// failed job; for a successful one, the update of its record, or an error
/// where the entry carries no KDBX identity.
pub open spec fn kdbx_plan(results: Seq<ThreadResult>) -> Seq<Result<UpdateFields, Error>>
    decreases results.len(),
{
    if results.len() == 0 {
        Seq::empty()
    } else {
        let prev = kdbx_plan(results.drop_last());
        let r = results.last();
        if !r.result.spec_succeeded() {
            prev
        } else {
            match r.db_entry.uuid {
                Uuid::Kdbx(u) => prev.push(
                    Ok((u@, r.db_entry.url@, r.db_entry.username@, r.db_entry.new_password@)),
                ),
                _ => prev.push(Err(Error::WrongUuidType)),
            }
        }
    }
}

pub open spec fn update_view(x: Result<KdbxUpdate, Error>) -> Result<UpdateFields, Error> {
    match x {
        Ok(u) => Ok((u.uuid@, u.url@, u.username@, u.password@)),
        Err(e) => Err(e),
    }
}

pub open spec fn updates_fields(p: Seq<Result<KdbxUpdate, Error>>) -> Seq<Result<UpdateFields, Error>> {
    p.map_values(|x: Result<KdbxUpdate, Error>| update_view(x))
}

/// The write-back of a run's results: an update for each successful job,
/// in the order the results came; failed jobs leave their records alone.
pub fn plan_rewrite(results: &Vec<ThreadResult>) -> (r: Vec<Result<KdbxUpdate, Error>>)
    ensures
        updates_fields(r@) == kdbx_plan(results@),
{
    let mut out: Vec<Result<KdbxUpdate, Error>> = Vec::new();
    assert(updates_fields(out@) =~= kdbx_plan(results@.take(0)));
    for i in 0..results.len()
        invariant
            updates_fields(out@) == kdbx_plan(results@.take(i as int)),
    {
        assert(results@.take(i + 1).drop_last() =~= results@.take(i as int));
        let r = &results[i];
        if r.result.succeeded() {
            let e = &r.db_entry;
            match e.uuid {
                Uuid::Kdbx(u) => {
                    out.push(Ok(KdbxUpdate {
                        uuid: u,
                        url: e.url.clone(),
                        username: e.username.clone(),
                        password: e.new_password.clone(),
                    }));
                },
                _ => {
                    out.push(Err(Error::WrongUuidType));
                },
            }
        }
        assert(updates_fields(out@) =~= kdbx_plan(results@.take(i + 1)));
    }
    assert(results@.take(results@.len() as int) =~= results@);
    out
}

/// A run in which no job succeeded leaves the container's records alone:
/// the write-back plan is empty.
pub proof fn lemma_failed_run_changes_nothing(results: Seq<ThreadResult>)
    requires
        forall|i: int| 0 <= i < results.len() ==> !(#[trigger] results[i].result.spec_succeeded()),
    ensures
        kdbx_plan(results) == Seq::<Result<UpdateFields, Error>>::empty(),
    decreases results.len(),
{
    if results.len() > 0 {
        let prev = results.drop_last();
        assert forall|i: int| 0 <= i < prev.len() implies !(#[trigger] prev[i].result.spec_succeeded()) by {
            assert(prev[i] == results[i]);
        }
        lemma_failed_run_changes_nothing(prev);
        assert(results[results.len() - 1] == results.last());
    }
}

/// A failed job leaves its record alone: where no successful job's entry
/// carries the KDBX identifier `id`, no update of the write-back plan
/// touches the record with that identifier, which keeps its old secret.
pub proof fn lemma_failed_job_record_untouched(results: Seq<ThreadResult>, id: Seq<u8>)
    requires
        forall|i: int|
            0 <= i < results.len() && (#[trigger] results[i]).result.spec_succeeded() ==> results[i].db_entry@.uuid
                != IdentityView::Kdbx(id),
    ensures
        forall|k: int|
            0 <= k < kdbx_plan(results).len() ==> !(#[trigger] kdbx_plan(results)[k] matches Ok(u) && u.0 == id),
    decreases results.len(),
{
    if results.len() > 0 {
        let prev = results.drop_last();
        assert forall|i: int|
            0 <= i < prev.len() && (#[trigger] prev[i]).result.spec_succeeded() implies prev[i].db_entry@.uuid
            != IdentityView::Kdbx(id) by {
            assert(prev[i] == results[i]);
        }
        lemma_failed_job_record_untouched(prev, id);
        assert(results[results.len() - 1] == results.last());
    }
}

/// Reads a KDBX container's entries into a store. Entries without a site
/// or credentials are left out, with their errors; every other entry gets a
/// freshly generated new secret; then each entry's references are resolved
/// against all of them, giving the resolved entry or the error that stops
/// it.
pub fn read_kdbx_entries(records: &Vec<KdbxRecord>) -> (r: (Vec<Result<DBEntry, Error>>, Vec<Error>))
    ensures
        r.0@.len() + r.1@.len() == records@.len(),
        exists|g: Seq<EntryView>|
            #[trigger] given_new_secrets(spec_parse_kdbx(records@), g) && r.0@.len() == g.len() && forall|i: int|
                0 <= i < g.len() ==> match #[trigger] r.0@[i] {
                    Ok(e) => resolved_entry(g, g[i]) == Ok::<EntryView, Error>(e@),
                    Err(x) => resolved_entry(g, g[i]) == Err::<EntryView, Error>(x),
                },
{
    let (entries, errors) = parse_kdbx_db(records);
    let generated = match with_new_secrets(entries) {
        Ok(g) => g,
        Err(_) => {
            return (Vec::new(), errors);
        },
    };
    let resolved = resolve_references(&generated);
    let ghost g = entries_view(generated@);
    assert(forall|i: int| 0 <= i < g.len() ==> #[trigger] g[i] == generated@[i]@);
    assert(given_new_secrets(spec_parse_kdbx(records@), g));
    (resolved, errors)
}

} // verus!
