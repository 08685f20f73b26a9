//! Secrets looked up among the entries of a password database.
use vstd::prelude::*;

verus! {

/// A secret to look up: the title of its entry, the key of its field, and
/// the variable of the environment that it is meant for.
#[derive(Clone)]
pub struct Secret {
    pub entry: String,
    pub field: String,
    pub env_var: String,
}

/// An entry of the database: its title, if it has one, and its fields, each
/// a key with its value, if it has one.
pub struct Entry {
    pub title: Option<String>,
    pub fields: Vec<(String, Option<String>)>,
}

/// Why a secret cannot be looked up.
#[derive(Debug, PartialEq, Eq, Clone, Copy, Structural)]
pub enum SecretError {
    /// An entry that had to be looked at has no title.
    UntitledEntry,
    /// The field that was found has no value.
    EmptyField,
}

/// The value of the first field with the key `key` among `fields` from
/// index `j` on; nothing where there is no such field.
pub open spec fn field_value(fields: Seq<(String, Option<String>)>, key: Seq<char>, j: int) -> Result<
    Option<Seq<char>>,
    SecretError,
>
    decreases fields.len() - j,
{
    if j < 0 || j >= fields.len() {
        Ok(None)
    } else if fields[j].0@ == key {
        match fields[j].1 {
            Some(v) => Ok(Some(v@)),
            None => Err(SecretError::EmptyField),
        }
    } else {
        field_value(fields, key, j + 1)
    }
}

/// The value of the field `key` in the first entry with the title `title`
/// among `entries` from index `i` on; nothing where there is no such entry
/// or no such field.
pub open spec fn entry_value(entries: Seq<Entry>, title: Seq<char>, key: Seq<char>, i: int) -> Result<
    Option<Seq<char>>,
    SecretError,
>
    decreases entries.len() - i,
{
    if i < 0 || i >= entries.len() {
        Ok(None)
    } else {
        match entries[i].title {
            None => Err(SecretError::UntitledEntry),
            Some(t) => if t@ == title {
                field_value(entries[i].fields@, key, 0)
            } else {
                entry_value(entries, title, key, i + 1)
            },
        }
    }
}

/// The views of values that may be missing.
pub open spec fn value_views(values: Seq<Option<String>>) -> Seq<Option<Seq<char>>> {
    values.map_values(
        |v: Option<String>|
            match v {
                Some(s) => Some(s@),
                None => None,
            },
    )
}

/// The values of `secrets` among `entries`, or what went wrong with the
/// first secret that cannot be looked up.
pub open spec fn secret_values(entries: Seq<Entry>, secrets: Seq<Secret>) -> Result<
    Seq<Option<Seq<char>>>,
    SecretError,
>
    decreases secrets.len(),
{
    if secrets.len() == 0 {
        Ok(Seq::empty())
    } else {
        match secret_values(entries, secrets.drop_last()) {
            Err(e) => Err(e),
            Ok(values) => match entry_value(
                entries,
                secrets.last().entry@,
                secrets.last().field@,
                0,
            ) {
                Err(e) => Err(e),
                Ok(v) => Ok(values.push(v)),
            },
        }
    }
}

/// Looks up one secret.
fn read_field(entries: &Vec<Entry>, secret: &Secret) -> (r: Result<Option<String>, SecretError>)
    ensures
        match r {
            Ok(Some(v)) => entry_value(entries@, secret.entry@, secret.field@, 0) == Ok::<
                Option<Seq<char>>,
                SecretError,
            >(Some(v@)),
            Ok(None) => entry_value(entries@, secret.entry@, secret.field@, 0) == Ok::<
                Option<Seq<char>>,
                SecretError,
            >(None),
            Err(e) => entry_value(entries@, secret.entry@, secret.field@, 0) == Err::<
                Option<Seq<char>>,
                SecretError,
            >(e),
        },
{
    let mut i: usize = 0;
    while i < entries.len()
        invariant
            i <= entries.len(),
            entry_value(entries@, secret.entry@, secret.field@, 0) == entry_value(
                entries@,
                secret.entry@,
                secret.field@,
                i as int,
            ),
        decreases entries.len() - i,
    {
        match &entries[i].title {
            None => {
                return Err(SecretError::UntitledEntry);
            },
            Some(title) => {
                if *title == secret.entry {
                    let fields = &entries[i].fields;
                    let mut j: usize = 0;
                    while j < fields.len()
                        invariant
                            j <= fields.len(),
                            entry_value(entries@, secret.entry@, secret.field@, 0) == field_value(
                                fields@,
                                secret.field@,
                                0,
                            ),
                            field_value(fields@, secret.field@, 0) == field_value(
                                fields@,
                                secret.field@,
                                j as int,
                            ),
                        decreases fields.len() - j,
                    {
                        if fields[j].0 == secret.field {
                            return match &fields[j].1 {
                                Some(v) => Ok(Some(v.clone())),
                                None => Err(SecretError::EmptyField),
                            };
                        }
                        j += 1;
                    }
                    return Ok(None);
                }
            },
        }
        i += 1;
    }
    Ok(None)
}

/// Looks up each secret among the entries of the database: the value of the
/// first field with its key in the first entry with its title, or nothing
/// where there is no such entry or field.
///
/// Fails at the first secret for which an entry without a title has to be
/// looked at, or whose field has no value.
pub fn read_fields_from_entry(entries: &Vec<Entry>, secrets: &Vec<Secret>) -> (r: Result<
    Vec<Option<String>>,
    SecretError,
>)
    ensures
        match r {
            Ok(values) => secret_values(entries@, secrets@) == Ok::<
                Seq<Option<Seq<char>>>,
                SecretError,
            >(value_views(values@)),
            Err(e) => secret_values(entries@, secrets@) == Err::<
                Seq<Option<Seq<char>>>,
                SecretError,
            >(e),
        },
{
    let mut values: Vec<Option<String>> = Vec::new();
    let mut k: usize = 0;
    assert(secrets@.take(0) =~= Seq::<Secret>::empty());
    assert(value_views(values@) =~= Seq::<Option<Seq<char>>>::empty());
    while k < secrets.len()
        invariant
            k <= secrets.len(),
            secret_values(entries@, secrets@.take(k as int)) == Ok::<
                Seq<Option<Seq<char>>>,
                SecretError,
            >(value_views(values@)),
        decreases secrets.len() - k,
    {
        let ghost before = value_views(values@);
        proof {
            assert(secrets@.take(k + 1).drop_last() =~= secrets@.take(k as int));
            assert(secrets@.take(k + 1).last() == secrets@[k as int]);
        }
        match read_field(entries, &secrets[k]) {
            Ok(v) => {
                values.push(v);
                assert(value_views(values@) =~= before.push(
                    match v {
                        Some(s) => Some(s@),
                        None => None,
                    },
                ));
            },
            Err(e) => {
                proof {
                    lemma_fails_on(entries@, secrets@, k as int);
                }
                return Err(e);
            },
        }
        k += 1;
    }
    assert(secrets@.take(secrets@.len() as int) =~= secrets@);
    Ok(values)
}

/// What goes wrong with the first `k + 1` secrets goes wrong with all.
proof fn lemma_fails_on(entries: Seq<Entry>, secrets: Seq<Secret>, k: int)
    requires
        0 <= k < secrets.len(),
        secret_values(entries, secrets.take(k + 1)) is Err,
    ensures
        secret_values(entries, secrets) == secret_values(entries, secrets.take(k + 1)),
    decreases secrets.len() - k,
{
    if k + 1 == secrets.len() {
        assert(secrets.take(k + 1) =~= secrets);
    } else {
        assert(secrets.take(k + 2).drop_last() =~= secrets.take(k + 1));
        lemma_fails_on(entries, secrets, k + 1);
    }
}

} // verus!
