//! Lines of an `authinfo` file: `machine <host> login <name> password <secret>`,
//! with `port <number>` behind them if the service has one.
use crate::text::{
    char_views, chars_eq, find_char, first_index, from_chars, lines, parse_u16, split_lines,
    split_words, subvec, to_chars, trim, trimmed, u16_of, words,
};
use vstd::prelude::*;

verus! {

/// Who logs in: a name, and the domain behind a `^` if one is given.
#[derive(Clone, Debug)]
pub struct Login {
    pub name: String,
    pub domain: Option<String>,
}

/// What one line says: how to log in at one machine.
#[derive(Clone, Debug)]
pub struct AuthInfo {
    pub machine: String,
    pub login: Login,
    pub password: String,
    pub port: Option<u16>,
}

/// A `Login` as a mathematical value.
pub struct LoginView {
    pub name: Seq<char>,
    pub domain: Option<Seq<char>>,
}

/// An `AuthInfo` as a mathematical value.
pub struct AuthInfoView {
    pub machine: Seq<char>,
    pub login: LoginView,
    pub password: Seq<char>,
    pub port: Option<u16>,
}

impl View for Login {
    type V = LoginView;

    open spec fn view(&self) -> LoginView {
        LoginView {
            name: self.name@,
            domain: match self.domain {
                Some(d) => Some(d@),
                None => None,
            },
        }
    }
}

impl View for AuthInfo {
    type V = AuthInfoView;

    open spec fn view(&self) -> AuthInfoView {
        AuthInfoView {
            machine: self.machine@,
            login: self.login@,
            password: self.password@,
            port: self.port,
        }
    }
}

/// Why a line is no entry.
#[derive(Debug, PartialEq, Eq, Clone, Copy, Structural)]
pub enum AuthInfoError {
    /// The line has fewer than six words.
    InvalidFormat,
    /// The login holds more than one `^`.
    InvalidLogin,
}

impl AuthInfoError {
    /// What went wrong, in words.
    pub fn message(&self) -> (text: &'static str)
        ensures
            text@ == match self {
                AuthInfoError::InvalidFormat => "Invalid auth info format"@,
                AuthInfoError::InvalidLogin => "Invalid login format"@,
            },
    {
        match self {
            AuthInfoError::InvalidFormat => "Invalid auth info format",
            AuthInfoError::InvalidLogin => "Invalid login format",
        }
    }
}

/// The login that a word stands for: the word itself as the name, or the
/// name and the domain on the two sides of its one `^`.
pub open spec fn login_of(word: Seq<char>) -> Option<LoginView> {
    match first_index(word, '^') {
        None => Some(LoginView { name: word, domain: None }),
        Some(i) => if first_index(word.skip(i + 1), '^') is None {
            Some(LoginView { name: word.take(i), domain: Some(word.skip(i + 1)) })
        } else {
            None
        },
    }
}

/// The port that the words of a line name: the number behind the word `port`
/// in seventh place, if it is one.
pub open spec fn port_of(parts: Seq<Seq<char>>) -> Option<u16> {
    if parts.len() > 7 && parts[6] == "port"@ {
        u16_of(parts[7])
    } else {
        None
    }
}

/// The entry that a line stands for. The second word is the machine, the
/// fourth the login, the sixth the password.
pub open spec fn auth_info_of(line: Seq<char>) -> Result<AuthInfoView, AuthInfoError> {
    let parts = words(line);
    if parts.len() < 6 {
        Err(AuthInfoError::InvalidFormat)
    } else {
        match login_of(parts[3]) {
            Some(login) => Ok(
                AuthInfoView {
                    machine: parts[1],
                    login,
                    password: parts[5],
                    port: port_of(parts),
                },
            ),
            None => Err(AuthInfoError::InvalidLogin),
        }
    }
}

/// Parses one line of an `authinfo` file.
pub fn parse_auth_info(line: &str) -> (r: Result<AuthInfo, AuthInfoError>)
    ensures
        match r {
            Ok(info) => auth_info_of(line@) == Ok::<AuthInfoView, AuthInfoError>(info@),
            Err(e) => auth_info_of(line@) == Err::<AuthInfoView, AuthInfoError>(e),
        },
{
    parse_auth_chars(&to_chars(line))
}

/// Parses one line of an `authinfo` file, given as characters.
pub fn parse_auth_chars(line: &Vec<char>) -> (r: Result<AuthInfo, AuthInfoError>)
    ensures
        match r {
            Ok(info) => auth_info_of(line@) == Ok::<AuthInfoView, AuthInfoError>(info@),
            Err(e) => auth_info_of(line@) == Err::<AuthInfoView, AuthInfoError>(e),
        },
{
    let parts = split_words(line);
    if parts.len() < 6 {
        return Err(AuthInfoError::InvalidFormat);
    }
    let ghost views = words(line@);
    assert(forall|k: int| 0 <= k < parts@.len() ==> parts@[k]@ == #[trigger] views[k]);
    let mut port: Option<u16> = None;
    if parts.len() > 7 && chars_eq(&parts[6], &to_chars("port")) {
        port = parse_u16(&parts[7]);
    }
    let word = &parts[3];
    let login = match find_char(word, '^') {
        None => Login { name: from_chars(word), domain: None },
        Some(i) => {
            let name = subvec(word, 0, i);
            let domain = subvec(word, i + 1, word.len());
            assert(name@ =~= word@.take(i as int));
            assert(domain@ =~= word@.skip(i + 1));
            if find_char(&domain, '^').is_some() {
                return Err(AuthInfoError::InvalidLogin);
            }
            Login { name: from_chars(&name), domain: Some(from_chars(&domain)) }
        },
    };
    Ok(
        AuthInfo {
            machine: from_chars(&parts[1]),
            login,
            password: from_chars(&parts[5]),
            port,
        },
    )
}

/// The views of a sequence of entries.
pub open spec fn auth_views(infos: Seq<AuthInfo>) -> Seq<AuthInfoView> {
    infos.map_values(|a: AuthInfo| a@)
}

/// The entries for `machine`, in their order.
pub fn find_auth_info_for_machine(machine: &str, auth_infos: Vec<AuthInfo>) -> (found: Vec<
    AuthInfo,
>)
    ensures
        auth_views(found@) == auth_views(auth_infos@).filter(
            |a: AuthInfoView| a.machine == machine@,
        ),
{
    let ghost all = auth_views(auth_infos@);
    let ghost wanted = |a: AuthInfoView| a.machine == machine@;
    let key = machine.to_owned();
    let mut found: Vec<AuthInfo> = Vec::new();
    assert(all.take(0).filter(wanted) =~= Seq::<AuthInfoView>::empty()) by {
        assert(all.take(0) =~= Seq::<AuthInfoView>::empty());
    }
    assert(auth_views(found@) =~= Seq::<AuthInfoView>::empty());
    for info in it: auth_infos
        invariant
            all == auth_views(it.seq()),
            key@ == machine@,
            wanted == |a: AuthInfoView| a.machine == machine@,
            auth_views(found@) == all.take(it.index() as int).filter(wanted),
    {
        let ghost before = auth_views(found@);
        let ghost i = it.index() as int;
        proof {
            assert(all.take(i + 1) =~= all.take(i).push(all[i]));
            all.take(i).lemma_filter_push(all[i], wanted);
            assert(all[i] == info@);
        }
        if info.machine == key {
            found.push(info);
            assert(auth_views(found@) =~= before.push(all[i]));
        }
    }
    assert(all.take(all.len() as int) =~= all);
    found
}

/// The entries that `rows` hold: each row is trimmed; an empty row and a row
/// that is no entry are passed over.
pub open spec fn entries_of(rows: Seq<Seq<char>>) -> Seq<AuthInfoView>
    decreases rows.len(),
{
    if rows.len() == 0 {
        Seq::empty()
    } else {
        let rest = entries_of(rows.drop_last());
        let row = trim(rows.last());
        match auth_info_of(row) {
            Ok(info) => if row.len() > 0 {
                rest.push(info)
            } else {
                rest
            },
            Err(_) => rest,
        }
    }
}

/// The entries of an `authinfo` file with the text `contents`, in the order
/// of its lines. Empty lines and lines that are no entries are passed over.
pub fn parse_auth_lines(contents: &str) -> (infos: Vec<AuthInfo>)
    ensures
        auth_views(infos@) == entries_of(lines(contents@)),
{
    let rows = split_lines(&to_chars(contents));
    let ghost views = char_views(rows@);
    let mut infos: Vec<AuthInfo> = Vec::new();
    let mut k: usize = 0;
    assert(views.take(0) =~= Seq::<Seq<char>>::empty());
    assert(auth_views(infos@) =~= Seq::<AuthInfoView>::empty());
    while k < rows.len()
        invariant
            k <= rows.len(),
            views == char_views(rows@),
            auth_views(infos@) == entries_of(views.take(k as int)),
        decreases rows.len() - k,
    {
        let ghost before = auth_views(infos@);
        proof {
            assert(views.take(k + 1).drop_last() =~= views.take(k as int));
            assert(views.take(k + 1).last() == rows@[k as int]@);
        }
        let row = trimmed(&rows[k]);
        if row.len() > 0 {
            match parse_auth_chars(&row) {
                Ok(info) => {
                    infos.push(info);
                    assert(auth_views(infos@) =~= before.push(info@));
                },
                Err(_) => {},
            }
        }
        k += 1;
    }
    assert(views.take(views.len() as int) =~= views);
    infos
}

} // verus!
