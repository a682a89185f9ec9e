//! New secrets, drawn from a password generator.
use vstd::prelude::*;
use crate::model::{DBEntry, EntryView, entries_view};

verus! {

/// What a new secret is made of.
#[derive(Debug, Clone, Copy)]
pub struct SecretPolicy {
    pub length: usize,
    pub numbers: bool,
    pub lowercase_letters: bool,
    pub uppercase_letters: bool,
    pub symbols: bool,
    pub spaces: bool,
    pub exclude_similar_characters: bool,
    pub strict: bool,
}

/// Why no secret could be generated.
#[derive(Debug, Clone, PartialEq, Eq)]
pub struct GeneratorError {
    pub message: String,
}

/// How many classes of characters a policy turns on.
pub open spec fn class_count(p: SecretPolicy) -> int {
    (if p.numbers { 1int } else { 0int }) + (if p.lowercase_letters { 1int } else { 0int }) + (
    if p.uppercase_letters { 1int } else { 0int }) + (if p.symbols { 1int } else { 0int }) + (
    if p.spaces { 1int } else { 0int })
}

/// Whether the generator accepts a policy: a length above zero, at least one
/// class of characters, and, where each class must appear, room for all.
pub open spec fn policy_accepted(p: SecretPolicy) -> bool {
    p.length > 0 && class_count(p) > 0 && !(p.strict && p.length < class_count(p))
}

/// Relies on passwords' `PasswordGenerator::generate_one`, which refuses a
/// policy with a length of zero, with no class of characters, or that is
/// strict with fewer characters than classes, and otherwise draws a random
/// password of exactly `length` characters.
#[verifier::external_body]
fn generate_one(p: &SecretPolicy) -> (r: Result<String, GeneratorError>)
    ensures
        r is Ok <==> policy_accepted(*p),
        r matches Ok(s) ==> s@.len() == p.length,
{
    let g = passwords::PasswordGenerator {
        length: p.length,
        numbers: p.numbers,
        lowercase_letters: p.lowercase_letters,
        uppercase_letters: p.uppercase_letters,
        symbols: p.symbols,
        spaces: p.spaces,
        exclude_similar_characters: p.exclude_similar_characters,
        strict: p.strict,
    };
    g.generate_one().map_err(|m| GeneratorError { message: m.to_owned() })
}

/// The policy of new secrets: sixteen characters with digits, letters of
/// both cases and symbols, each class present, no look-alikes, no spaces.
pub fn default_policy() -> (r: SecretPolicy)
    ensures
        r.length == 16,
        r.numbers && r.lowercase_letters && r.uppercase_letters && r.symbols,
        r.strict && r.exclude_similar_characters && !r.spaces,
{
    SecretPolicy {
        length: 16,
        numbers: true,
        lowercase_letters: true,
        uppercase_letters: true,
        symbols: true,
        spaces: false,
        exclude_similar_characters: true,
        strict: true,
    }
}

/// A new secret under the default policy: sixteen random characters.
pub fn get_pw() -> (r: Result<String, GeneratorError>)
    ensures
        r is Ok,
        r matches Ok(s) ==> s@.len() == 16,
{
    generate_one(&default_policy())
}

/// The same entry with another new secret.
pub open spec fn with_secret(e: EntryView, s: Seq<char>) -> EntryView {
    EntryView { new_password: s, ..e }
}

/// Whether `v` is `entries`, each with a freshly generated sixteen-character
/// new secret and its other fields as they were.
pub open spec fn given_new_secrets(entries: Seq<EntryView>, v: Seq<EntryView>) -> bool {
    &&& v.len() == entries.len()
    &&& forall|i: int|
        0 <= i < entries.len() ==> #[trigger] v[i] == with_secret(entries[i], v[i].new_password)
            && v[i].new_password.len() == 16
}

/// Gives every entry a freshly generated new secret; the other fields stay
/// as they were.
pub fn with_new_secrets(entries: Vec<DBEntry>) -> (r: Result<Vec<DBEntry>, GeneratorError>)
    ensures
        r is Ok,
        r matches Ok(v) ==> given_new_secrets(entries_view(entries@), entries_view(v@)),
{
    let mut out: Vec<DBEntry> = Vec::new();
    for i in 0..entries.len()
        invariant
            out@.len() == i,
            forall|k: int|
                0 <= k < i ==> (#[trigger] out@[k])@ == with_secret(entries@[k]@, out@[k]@.new_password)
                    && out@[k]@.new_password.len() == 16,
    {
        let mut e = entries[i].duplicate();
        e.new_password = get_pw()?;
        out.push(e);
    }
    assert(given_new_secrets(entries_view(entries@), entries_view(out@)));
    Ok(out)
}

} // verus!
