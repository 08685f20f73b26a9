//! The command lines that back up to a repository in a bucket.
use crate::system::text_views;
use crate::text::{append_chars, from_chars, to_chars};
use vstd::prelude::*;

verus! {

/// Where the repository lies and how to get in.
#[derive(Debug)]
pub struct S3Endpoint {
    pub bucket: String,
    pub access_key: String,
    pub secret_key: String,
    pub endpoint: String,
    pub password: String,
}

/// The command line that connects to the repository of `s3`.
pub open spec fn connect_command(
    bucket: Seq<char>,
    access_key: Seq<char>,
    secret_key: Seq<char>,
    endpoint: Seq<char>,
    password: Seq<char>,
) -> Seq<char> {
    "kopia repository connect s3 --bucket="@ + bucket + " --access-key="@ + access_key
        + " --secret-access-key="@ + secret_key + " --endpoint="@ + endpoint + " --password="@
        + password
}

/// The command line that takes a snapshot of `location`. It ends in a space.
pub open spec fn snapshot_command(location: Seq<char>) -> Seq<char> {
    "kopia snapshot create "@ + location + " "@
}

/// The command lines of a backup: the connection first, then one snapshot
/// for each location, in order.
pub open spec fn backup_commands(s3: S3Endpoint, locations: Seq<Seq<char>>) -> Seq<Seq<char>> {
    seq![
        connect_command(s3.bucket@, s3.access_key@, s3.secret_key@, s3.endpoint@, s3.password@),
    ] + locations.map_values(|l: Seq<char>| snapshot_command(l))
}

/// The command line that connects to the repository.
pub fn kopia_connect_s3(s3: &S3Endpoint) -> (command: String)
    ensures
        command@ == connect_command(
            s3.bucket@,
            s3.access_key@,
            s3.secret_key@,
            s3.endpoint@,
            s3.password@,
        ),
{
    let mut out: Vec<char> = Vec::new();
    append_chars(&mut out, &to_chars("kopia repository connect s3 --bucket="));
    append_chars(&mut out, &to_chars(s3.bucket.as_str()));
    append_chars(&mut out, &to_chars(" --access-key="));
    append_chars(&mut out, &to_chars(s3.access_key.as_str()));
    append_chars(&mut out, &to_chars(" --secret-access-key="));
    append_chars(&mut out, &to_chars(s3.secret_key.as_str()));
    append_chars(&mut out, &to_chars(" --endpoint="));
    append_chars(&mut out, &to_chars(s3.endpoint.as_str()));
    append_chars(&mut out, &to_chars(" --password="));
    append_chars(&mut out, &to_chars(s3.password.as_str()));
    assert(out@ =~= connect_command(
        s3.bucket@,
        s3.access_key@,
        s3.secret_key@,
        s3.endpoint@,
        s3.password@,
    ));
    from_chars(&out)
}

/// The command lines that back up `locations` to the repository: the
/// connection, then a snapshot of each location.
pub fn backup(s3: &S3Endpoint, locations: &Vec<String>) -> (commands: Vec<String>)
    ensures
        text_views(commands@) == backup_commands(*s3, text_views(locations@)),
{
    let mut commands: Vec<String> = Vec::new();
    commands.push(kopia_connect_s3(s3));
    let mut k: usize = 0;
    while k < locations.len()
        invariant
            k <= locations.len(),
            commands@.len() == k + 1,
            commands@[0]@ == connect_command(
                s3.bucket@,
                s3.access_key@,
                s3.secret_key@,
                s3.endpoint@,
                s3.password@,
            ),
            forall|i: int|
                1 <= i <= k ==> (#[trigger] commands@[i])@ == snapshot_command(
                    locations@[i - 1]@,
                ),
        decreases locations.len() - k,
    {
        let mut out: Vec<char> = Vec::new();
        append_chars(&mut out, &to_chars("kopia snapshot create "));
        append_chars(&mut out, &to_chars(locations[k].as_str()));
        append_chars(&mut out, &to_chars(" "));
        assert(out@ =~= snapshot_command(locations@[k as int]@));
        commands.push(from_chars(&out));
        k += 1;
    }
    let ghost wanted = backup_commands(*s3, text_views(locations@));
    assert(wanted.len() == commands@.len());
    assert forall|i: int| 0 <= i < commands@.len() implies text_views(commands@)[i]
        == wanted[i] by {
        if i >= 1 {
            assert(commands@[i]@ == snapshot_command(locations@[i - 1]@));
        }
    }
    assert(text_views(commands@) =~= wanted);
    commands
}

} // verus!
