//! Where mpd is.
use vstd::prelude::*;

use crate::text;

verus! {

/// A place to find mpd at.
#[derive(Debug, Clone, PartialEq, Eq)]
pub enum Address {
    /// the path of a socket
    Socket(String),
    /// host and port
    Tcp(String),
}

/// An `Address`, with its text as a sequence.
pub ghost enum AddressView {
    Socket(Seq<char>),
    Tcp(Seq<char>),
}

impl View for Address {
    type V = AddressView;

    open spec fn view(&self) -> AddressView {
        match *self {
            Address::Socket(path) => AddressView::Socket(path@),
            Address::Tcp(host) => AddressView::Tcp(host@),
        }
    }
}

/// An optional text that is borrowed.
pub open spec fn opt_str(text: Option<&str>) -> Option<Seq<char>> {
    match text {
        Some(t) => Some(t@),
        None => None,
    }
}

/// `secret@host` carries a password; everything else is a host.
pub open spec fn password_split(host: Seq<char>) -> (Option<Seq<char>>, Seq<char>) {
    match text::cut_last(host, '@') {
        Some((password, host)) if host.len() > 0 => (Some(password), host),
        _ => (None, host),
    }
}

/// Where mpd is, and the password to send: at the host that is set, else at the socket that is
/// there, else on this machine.
pub open spec fn address_of(
    host: Option<Seq<char>>,
    port: Option<Seq<char>>,
    socket: Option<Seq<char>>,
) -> (AddressView, Option<Seq<char>>) {
    match host {
        Some(h) if h.len() > 0 => {
            let (password, h) = password_split(h);
            if h[0] == '/' {
                (AddressView::Socket(h), password)
            } else {
                let port = match port {
                    Some(p) => p,
                    None => "6600"@,
                };
                (AddressView::Tcp(h + ":"@ + port), password)
            }
        },
        _ => match socket {
            Some(s) => (AddressView::Socket(s), None),
            None => (AddressView::Tcp("127.0.0.1:6600"@), None),
        },
    }
}

/// Where to find mpd, and the password to send if the host carries one. `host` and `port` are what
/// `$MPD_HOST` and `$MPD_PORT` hold; `socket` is the path of the user's mpd socket, where there is
/// one.
pub fn default_address(host: Option<&str>, port: Option<&str>, socket: Option<&str>) -> (r: (
    Address,
    Option<String>,
))
    ensures
        (r.0@, text::opt(r.1)) == address_of(opt_str(host), opt_str(port), opt_str(socket)),
{
    if let Some(host) = host {
        if !host.is_empty() {
            let (password, host) = match text::split_last(host, '@') {
                Some((password, rest)) => if rest.as_str().is_empty() {
                    (None, host.to_owned())
                } else {
                    (Some(password), rest)
                },
                None => (None, host.to_owned()),
            };
            let chars = text::characters(&host);
            if chars[0] == '/' {
                return (Address::Socket(host), password);
            }
            let port = match port {
                Some(p) => p,
                None => "6600",
            };
            return (Address::Tcp(host.concat(":").concat(port)), password);
        }
    }
    match socket {
        Some(s) => (Address::Socket(s.to_owned()), None),
        None => (Address::Tcp("127.0.0.1:6600".to_owned()), None),
    }
}

/// mpd is where the environment says: at the host that is named, or else at the socket if there is
/// one, or else on this machine at the usual port. A host that begins with a slash is a socket, and
/// any other has the port behind it, the usual one if none is named.
pub proof fn law_where_mpd_is(
    host: Seq<char>,
    port: Option<Seq<char>>,
    socket: Option<Seq<char>>,
)
    requires
        host.len() > 0,
        !host.contains('@'),
    ensures
        host[0] == '/' ==> address_of(Some(host), port, socket) == (
            AddressView::Socket(host),
            None::<Seq<char>>,
        ),
        host[0] != '/' ==> (port matches Some(p) ==> address_of(Some(host), port, socket) == (
            AddressView::Tcp(host + seq![':'] + p),
            None::<Seq<char>>,
        )),
        host[0] != '/' && port is None ==> address_of(Some(host), port, socket) == (
            AddressView::Tcp(host + ":6600"@),
            None::<Seq<char>>,
        ),
        socket matches Some(s) ==> address_of(None, port, socket) == (
            AddressView::Socket(s),
            None::<Seq<char>>,
        ),
        socket is None ==> address_of(None, port, socket) == (
            AddressView::Tcp("127.0.0.1:6600"@),
            None::<Seq<char>>,
        ),
        address_of(Some(seq![]), port, socket) == address_of(None, port, socket),
{
    reveal_strlit(":");
    reveal_strlit("6600");
    reveal_strlit(":6600");
    text::law_cut_at_the_last(seq![], host, '@');
    assert(":"@ =~= seq![':']);
    assert(host + ":"@ + "6600"@ =~= host + ":6600"@);
}

/// What stands before the last `@` of the host is the password, and the host is the rest. Where
/// nothing follows it, it is part of the host.
pub proof fn law_the_password_comes_first(
    password: Seq<char>,
    host: Seq<char>,
    port: Option<Seq<char>>,
    socket: Option<Seq<char>>,
)
    requires
        host.len() > 0,
        !host.contains('@'),
    ensures
        address_of(Some(password + seq!['@'] + host), port, socket) == (
            address_of(Some(host), port, socket).0,
            Some(password),
        ),
        address_of(Some(host + seq!['@']), port, socket).1 is None,
{
    text::law_cut_at_the_last(password, host, '@');
    let none = Seq::<char>::empty();
    text::law_cut_at_the_last(host, none, '@');
    assert(host + seq!['@'] + none =~= host + seq!['@']);
}

} // verus!
