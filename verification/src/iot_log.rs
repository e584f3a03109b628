//! Lines of a gateway log, such as
//! `2024-08-26 00:00:00.720  [117.132.198.154:3649#172.19.85.132:5003] R:6812`: the
//! time, the sockets of client and server, and the payload.

use vstd::prelude::*;
use crate::scan::{
    after_tag,
    decimal,
    leading_digits,
    part_of,
    rest_from,
    take_class1,
    take_groups,
    take_line,
    take_list,
    take_run1,
    take_tag,
    take_unsigned,
    take_until1,
    till_line_ending,
    until1,
    NoMatch,
};
use crate::text::{chars_of, CharClass};

verus! {

/// One end of a connection.
#[derive(Debug)]
pub struct Socket<'a> {
    pub ip_address: &'a str,
    pub port: u16,
}

/// One line of the log.
#[derive(Debug)]
pub struct IotLog<'a> {
    pub data_time: &'a str,
    pub client_socket: Socket<'a>,
    pub server_socket: Socket<'a>,
    pub payload: &'a str,
}

/// The mathematical value of a [`Socket`]. The port is the number as it is written,
/// whatever its size.
pub struct SocketView {
    pub ip_address: Seq<char>,
    pub port: nat,
}

/// The mathematical value of an [`IotLog`].
pub struct IotLogView {
    pub data_time: Seq<char>,
    pub client_socket: SocketView,
    pub server_socket: SocketView,
    pub payload: Seq<char>,
}

impl<'a> View for Socket<'a> {
    type V = SocketView;

    open spec fn view(&self) -> SocketView {
        SocketView { ip_address: self.ip_address@, port: self.port as nat }
    }
}

impl<'a> View for IotLog<'a> {
    type V = IotLogView;

    open spec fn view(&self) -> IotLogView {
        IotLogView {
            data_time: self.data_time@,
            client_socket: self.client_socket@,
            server_socket: self.server_socket@,
            payload: self.payload@,
        }
    }
}

/// The characters that may stand between the numbers of a time.
pub open spec fn time_marks() -> Seq<char> {
    seq!['-', ':', '.', ' ']
}

/// The time that `s` begins with, and what follows it: numbers with one of `-`, `:`,
/// `.` and a space between each two.
pub open spec fn datetime_spec(s: Seq<char>) -> Option<(Seq<char>, Seq<char>)> {
    take_groups(s, CharClass::Digit, time_marks())
}

/// The socket that `s` begins with, and what follows it: an address of numbers with
/// points between them, a colon, and a port.
pub open spec fn socket_spec(s: Seq<char>) -> Option<(Seq<char>, SocketView)> {
    match take_groups(s, CharClass::Digit, seq!['.']) {
        None => None,
        Some((s1, ip_address)) => match after_tag(s1, seq![':']) {
            None => None,
            Some(s2) => match take_run1(s2, CharClass::Digit) {
                None => None,
                Some((rest, digits)) => Some(
                    (rest, SocketView { ip_address, port: decimal(digits) }),
                ),
            },
        },
    }
}

/// The payload that `s` begins with, and what follows it: after what stands before the
/// first colon, one character at least, and that colon, what stands before the end of
/// the line.
pub open spec fn payload_spec(s: Seq<char>) -> Option<(Seq<char>, Seq<char>)> {
    match take_until1(s, seq![':']) {
        None => None,
        Some((s1, _)) => till_line_ending(s1.skip(1)),
    }
}

/// The time that a line `s` begins with, and what follows the `[` after it: a time,
/// blanks, one at least, and `[`.
pub open spec fn log_head_spec(s: Seq<char>) -> Option<(Seq<char>, Seq<char>)> {
    match datetime_spec(s) {
        None => None,
        Some((s1, data_time)) => match take_run1(s1, CharClass::Blank) {
            None => None,
            Some((s2, _)) => match after_tag(s2, seq!['[']) {
                None => None,
                Some(rest) => Some((rest, data_time)),
            },
        },
    }
}

/// The line that `s` begins with, and what follows it: a time, blanks, and between `[`
/// and `]` the sockets of client and server with a `#` between them; then the payload.
pub open spec fn log_spec(s: Seq<char>) -> Option<(Seq<char>, IotLogView)> {
    match log_head_spec(s) {
        None => None,
        Some((s1, data_time)) => match socket_spec(s1) {
            None => None,
            Some((s2, client_socket)) => match after_tag(s2, seq!['#']) {
                None => None,
                Some(s3) => match socket_spec(s3) {
                    None => None,
                    Some((s4, server_socket)) => match after_tag(s4, seq![']']) {
                        None => None,
                        Some(s5) => match payload_spec(s5) {
                            None => None,
                            Some((rest, payload)) => Some(
                                (
                                    rest,
                                    IotLogView { data_time, client_socket, server_socket, payload },
                                ),
                            ),
                        },
                    },
                },
            },
        },
    }
}

/// Whether the port of the socket that `s` begins with, if it begins with one, is
/// below 65536.
pub open spec fn port_fits(s: Seq<char>) -> bool {
    socket_spec(s) matches Some((_, socket)) ==> socket.port <= u16::MAX
}

/// Whether the ports of the sockets that are read from the line `s` are below 65536:
/// that of the client, where the line gets as far as that, and that of the server
/// likewise.
pub open spec fn ports_fit(s: Seq<char>) -> bool {
    match log_head_spec(s) {
        None => true,
        Some((s1, _)) => match socket_spec(s1) {
            None => true,
            Some((s2, client)) => client.port <= u16::MAX && match after_tag(s2, seq!['#']) {
                None => true,
                Some(s3) => port_fits(s3),
            },
        },
    }
}

/// Reads a time, such as `2024-08-26 00:00:00.720`.
pub fn parse_datetime<'a>(input: &'a str) -> (r: Result<(&'a str, &'a str), NoMatch>)
    ensures
        match datetime_spec(input@) {
            Some((rest, time)) => r matches Ok((x, t)) && x@ == rest && t@ == time,
            None => r is Err,
        },
{
    proof {
        reveal_strlit("-:. ");
        assert("-:. "@ == time_marks());
    }
    take_list(input, CharClass::Digit, "-:. ")
}

/// Reads a socket; the port is `None` when it is written as a number above 65535.
fn scan_socket<'a>(input: &'a str) -> (r: Result<(&'a str, &'a str, Option<u16>), NoMatch>)
    ensures
        match socket_spec(input@) {
            Some((rest, socket)) => r matches Ok((x, ip, port)) && x@ == rest && ip@
                == socket.ip_address && match port {
                Some(p) => p == socket.port,
                None => socket.port > u16::MAX,
            },
            None => r is Err,
        },
{
    proof {
        reveal_strlit(".");
        reveal_strlit(":");
        assert("."@ == seq!['.'] && ":"@ == seq![':']);
    }
    let (input, ip_address) = take_list(input, CharClass::Digit, ".")?;
    let input = take_tag(input, ":")?;
    let (rest, digits) = take_class1(input, CharClass::Digit)?;
    proof {
        crate::text::lemma_run(input@, CharClass::Digit);
        assert(digits@ == leading_digits(input@));
    }
    let port = match take_unsigned(input, 65535) {
        Ok((_, value)) => Some(value as u16),
        Err(_) => None,
    };
    Ok((rest, ip_address, port))
}

/// Whether the port of the socket that `input` begins with can be kept: whether, if
/// `input` begins with a socket, its port is below 65536.
pub fn socket_port_fits(input: &str) -> (b: bool)
    ensures
        b == port_fits(input@),
{
    match scan_socket(input) {
        Ok((_, _, port)) => port.is_some(),
        Err(_) => true,
    }
}

/// Reads a socket, such as `117.132.198.154:3649`.
pub fn parse_socket<'a>(input: &'a str) -> (r: Result<(&'a str, Socket<'a>), NoMatch>)
    requires
        port_fits(input@),
    ensures
        match socket_spec(input@) {
            Some((rest, socket)) => r matches Ok((x, k)) && x@ == rest && k@ == socket,
            None => r is Err,
        },
{
    match scan_socket(input)? {
        (rest, ip_address, Some(port)) => Ok((rest, Socket { ip_address, port })),
        (_, _, None) => Err(NoMatch),
    }
}

/// Reads a payload: what follows the first colon, up to the end of the line.
pub fn parse_payload<'a>(input: &'a str) -> (r: Result<(&'a str, &'a str), NoMatch>)
    ensures
        match payload_spec(input@) {
            Some((rest, payload)) => r matches Ok((x, p)) && x@ == rest && p@ == payload,
            None => r is Err,
        },
{
    let s = chars_of(input);
    assert(s@.skip(0) == s@);
    proof {
        reveal_strlit(":");
        assert(":"@ == seq![':']);
    }
    match until1(&s, 0, ":") {
        None => Err(NoMatch),
        Some(colon) => {
            assert(s@.skip(colon as int).skip(1) == s@.skip(colon + 1));
            take_line(rest_from(input, colon + 1))
        },
    }
}

/// Reads the beginning of a line: the time, blanks and `[`.
fn parse_log_head<'a>(input: &'a str) -> (r: Result<(&'a str, &'a str), NoMatch>)
    ensures
        match log_head_spec(input@) {
            Some((rest, time)) => r matches Ok((x, t)) && x@ == rest && t@ == time,
            None => r is Err,
        },
{
    proof {
        reveal_strlit("[");
        assert("["@ == seq!['[']);
    }
    let (input, data_time) = parse_datetime(input)?;
    let (input, _) = take_class1(input, CharClass::Blank)?;
    let input = take_tag(input, "[")?;
    Ok((input, data_time))
}

/// Whether the ports of the sockets that are read from the line `input` can be kept.
pub fn log_ports_fit(input: &str) -> (b: bool)
    ensures
        b == ports_fit(input@),
{
    proof {
        reveal_strlit("#");
        assert("#"@ == seq!['#']);
    }
    let input = match parse_log_head(input) {
        Ok((rest, _)) => rest,
        Err(_) => {
            return true;
        },
    };
    let input = match scan_socket(input) {
        Ok((rest, _, Some(_))) => rest,
        Ok((_, _, None)) => {
            return false;
        },
        Err(_) => {
            return true;
        },
    };
    match take_tag(input, "#") {
        Ok(rest) => socket_port_fits(rest),
        Err(_) => true,
    }
}

/// Reads a line of the log.
///
/// The ports that are read have to be below 65536: see [`log_ports_fit`]. Succeeds
/// exactly when `input` begins with a time, blanks, the two sockets between `[` and `]`
/// with `#` between them, and a payload after a colon.
pub fn parse_log<'a>(input: &'a str) -> (r: Result<(&'a str, IotLog<'a>), NoMatch>)
    requires
        ports_fit(input@),
    ensures
        match log_spec(input@) {
            Some((rest, log)) => r matches Ok((x, l)) && x@ == rest && l@ == log,
            None => r is Err,
        },
{
    proof {
        reveal_strlit("#");
        reveal_strlit("]");
        assert("#"@ == seq!['#'] && "]"@ == seq![']']);
    }
    let (input, data_time) = parse_log_head(input)?;
    let (input, client_socket) = parse_socket(input)?;
    let input = take_tag(input, "#")?;
    let (input, server_socket) = parse_socket(input)?;
    let input = take_tag(input, "]")?;
    let (input, payload) = parse_payload(input)?;
    Ok((input, IotLog { data_time, client_socket, server_socket, payload }))
}

} // verus!
