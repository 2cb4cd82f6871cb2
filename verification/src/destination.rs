//! Federation destinations: a literal address with its port, or a host name
//! with what follows it.

use vstd::prelude::*;

use crate::string::{chars_of, joined, find_char, push_char, string_from_chars};

verus! {

/// The port that federation uses where nothing says otherwise.
pub const DEFAULT_PORT: u16 = 8448;

/// An IP address, by the text that prints it and its family.
#[derive(Clone, Debug, PartialEq, Eq)]
pub struct IpLiteral {
    pub text: String,
    pub v6: bool,
}

/// An IP address together with a port.
#[derive(Clone, Debug, PartialEq, Eq)]
pub struct SocketLiteral {
    pub ip: IpLiteral,
    pub port: u16,
}

/// What became of reading a name as an address: as one with a port, and as
/// a bare one. A name is at most one of the two.
#[derive(Clone, Debug, PartialEq, Eq)]
pub struct ParsedLiteral {
    pub socket: Option<SocketLiteral>,
    pub ip: Option<IpLiteral>,
}

/// Wraps either an literal IP address plus port, or a hostname plus complement
/// (colon-plus-port if it was specified).
///
/// Note: A `FedDest::Named` might contain an IP address in string form if there
/// was no port specified to construct a `SocketLiteral` with.
#[derive(Clone, Debug, PartialEq, Eq)]
pub enum FedDest {
    Literal(SocketLiteral),
    Named(String, String),
}

/// An IP address as contracts see it.
pub struct IpText {
    pub text: Seq<char>,
    pub v6: bool,
}

/// An address with its port as contracts see it.
pub struct SocketText {
    pub ip: IpText,
    pub port: u16,
}

/// A reading of a name as an address, as contracts see it.
pub struct LiteralReading {
    pub socket: Option<SocketText>,
    pub ip: Option<IpText>,
}

/// A destination as contracts see it.
pub enum Target {
    Literal(SocketText),
    Named(Seq<char>, Seq<char>),
}

impl View for IpLiteral {
    type V = IpText;

    open spec fn view(&self) -> IpText {
        IpText { text: self.text@, v6: self.v6 }
    }
}

impl View for SocketLiteral {
    type V = SocketText;

    open spec fn view(&self) -> SocketText {
        SocketText { ip: self.ip@, port: self.port }
    }
}

impl View for ParsedLiteral {
    type V = LiteralReading;

    open spec fn view(&self) -> LiteralReading {
        LiteralReading {
            socket: match self.socket {
                Some(socket) => Some(socket@),
                None => None,
            },
            ip: match self.ip {
                Some(ip) => Some(ip@),
                None => None,
            },
        }
    }
}

impl View for FedDest {
    type V = Target;

    open spec fn view(&self) -> Target {
        match self {
            FedDest::Literal(socket) => Target::Literal(socket@),
            FedDest::Named(host, port) => Target::Named(host@, port@),
        }
    }
}

/// The value of a decimal digit.
pub open spec fn digit_value(c: char) -> nat {
    (c as u32 - 0x30) as nat
}

/// Whether a character is a decimal digit.
pub open spec fn is_digit(c: char) -> bool {
    0x30 <= c as u32 <= 0x39
}

/// The number that a run of decimal digits spells.
pub open spec fn decimal_value(digits: Seq<char>) -> nat
    decreases digits.len(),
{
    if digits.len() == 0 {
        0
    } else {
        decimal_value(digits.drop_last()) * 10 + digit_value(digits.last())
    }
}

/// Whether a text is made of decimal digits only.
pub open spec fn all_digits(digits: Seq<char>) -> bool {
    forall|i: int| 0 <= i < digits.len() ==> is_digit(#[trigger] digits[i])
}

/// The port that `text` spells: decimal digits, after an optional plus sign,
/// whose value fits sixteen bits.
pub open spec fn spec_parse_port(text: Seq<char>) -> Option<u16> {
    let digits = if text.len() > 0 && text[0] == '+' {
        text.skip(1)
    } else {
        text
    };
    if digits.len() > 0 && all_digits(digits) && decimal_value(digits) <= u16::MAX {
        Some(decimal_value(digits) as u16)
    } else {
        None
    }
}

/// The decimal digits of `value`, without leading zeros.
pub open spec fn decimal_digits(value: nat) -> Seq<char>
    decreases value,
{
    if value < 10 {
        seq![(0x30 + value) as u8 as char]
    } else {
        decimal_digits(value / 10).push((0x30 + value % 10) as u8 as char)
    }
}

/// A run of digits keeps its value no larger than what its length allows.
pub proof fn lemma_decimal_value_prefix(digits: Seq<char>, n: int)
    requires
        0 <= n <= digits.len(),
        all_digits(digits),
    ensures
        decimal_value(digits.take(n)) <= decimal_value(digits),
    decreases digits.len() - n,
{
    if n < digits.len() {
        let next = digits.take(n + 1);
        assert(next.drop_last() =~= digits.take(n));
        assert(is_digit(digits[n]));
        lemma_decimal_value_prefix(digits, n + 1);
    } else {
        assert(digits.take(n) =~= digits);
    }
}

/// The digits that print a number are digits, do not begin with a sign,
/// and spell the number.
pub proof fn lemma_decimal_digits(value: nat)
    ensures
        decimal_digits(value).len() > 0,
        all_digits(decimal_digits(value)),
        decimal_value(decimal_digits(value)) == value,
        decimal_digits(value)[0] != '+',
    decreases value,
{
    let digits = decimal_digits(value);
    if value < 10 {
        let c = (0x30 + value) as u8 as char;
        assert(digits =~= seq![c]);
        assert(c as u32 == 0x30 + value);
        assert(digits.drop_last() =~= Seq::<char>::empty());
        assert(decimal_value(digits.drop_last()) == 0);
        assert(digits.last() == c);
    } else {
        lemma_decimal_digits(value / 10);
        let front = decimal_digits(value / 10);
        let c = (0x30 + value % 10) as u8 as char;
        assert(digits == front.push(c));
        assert(c as u32 == 0x30 + value % 10);
        assert(digits.drop_last() =~= front);
        assert(digits.last() == c);
        assert(digits[0] == front[0]);
        assert forall|i: int| 0 <= i < digits.len() implies is_digit(#[trigger] digits[i]) by {
            if i < front.len() {
                assert(digits[i] == front[i]);
            }
        }
    }
}

/// A port that is printed reads back as itself.
pub proof fn lemma_port_round_trip(port: u16)
    ensures
        spec_parse_port(decimal_digits(port as nat)) == Some(port),
{
    lemma_decimal_digits(port as nat);
}

/// Reads a port number.
pub fn parse_port(text: &str) -> (port: Option<u16>)
    ensures
        port == spec_parse_port(text@),
{
    let chars = chars_of(text);
    let start: usize = if chars.len() > 0 && chars[0] == '+' {
        1
    } else {
        0
    };
    let ghost digits = if start == 1 {
        text@.skip(1)
    } else {
        text@
    };
    if chars.len() == start {
        return None;
    }
    proof {
        assert(text@.skip(0) =~= text@);
    }
    let mut acc: u32 = 0;
    let mut i: usize = start;
    while i < chars.len()
        invariant
            start <= i <= chars@.len(),
            chars@ == text@,
            start <= 1,
            start == 1 <==> text@.len() > 0 && text@[0] == '+',
            digits == text@.skip(start as int),
            digits.len() > 0,
            all_digits(digits.take(i - start)),
            acc as nat == decimal_value(digits.take(i - start)),
            acc <= u16::MAX,
        decreases chars@.len() - i,
    {
        let c = chars[i];
        let code = c as u32;
        if code < 0x30 || code > 0x39 {
            proof {
                assert(text@.skip(0) =~= text@);
                assert(digits[i - start] == c);
                assert(!is_digit(digits[i - start]));
            }
            return None;
        }
        let next: u32 = acc * 10 + (code - 0x30);
        proof {
            let longer = digits.take(i - start + 1);
            assert(longer.drop_last() =~= digits.take(i - start));
            assert(longer.last() == c);
            assert(next as nat == decimal_value(longer));
            assert forall|k: int| 0 <= k < longer.len() implies is_digit(#[trigger] longer[k]) by {
                if k < i - start {
                    assert(digits.take(i - start)[k] == longer[k]);
                }
            }
        }
        if next > 0xFFFF {
            proof {
                assert(text@.skip(0) =~= text@);
                if all_digits(digits) {
                    lemma_decimal_value_prefix(digits, i - start + 1);
                }
            }
            return None;
        }
        acc = next;
        i = i + 1;
    }
    proof {
        assert(text@.skip(0) =~= text@);
        assert(digits.take(digits.len() as int) =~= digits);
    }
    Some(acc as u16)
}

/// Prints a port number in decimal.
pub fn port_digits(port: u16) -> (text: String)
    ensures
        text@ == decimal_digits(port as nat),
{
    let mut reversed: Vec<char> = Vec::new();
    let mut rest: u16 = port;
    let ghost mut taken: Seq<char> = Seq::empty();
    while rest >= 10
        invariant
            decimal_digits(port as nat) == decimal_digits(rest as nat) + taken,
            reversed@.len() == taken.len(),
            forall|k: int| 0 <= k < taken.len() ==> reversed@[k] == taken[taken.len() - 1 - k],
        decreases rest,
    {
        let digit = (0x30 + rest % 10) as u8 as char;
        proof {
            let before = taken;
            taken = seq![digit] + before;
            assert(decimal_digits(rest as nat) == decimal_digits(rest as nat / 10).push(digit));
            assert(decimal_digits(rest as nat / 10).push(digit) + before =~= decimal_digits(
                rest as nat / 10,
            ) + taken);
        }
        reversed.push(digit);
        rest = rest / 10;
    }
    let mut text = String::new();
    push_char(&mut text, (0x30 + rest) as u8 as char);
    let mut i: usize = reversed.len();
    while i > 0
        invariant
            i <= reversed@.len(),
            reversed@.len() == taken.len(),
            forall|k: int| 0 <= k < taken.len() ==> reversed@[k] == taken[taken.len() - 1 - k],
            text@ =~= decimal_digits(rest as nat) + taken.take(taken.len() - i),
            rest < 10,
        decreases i,
    {
        i = i - 1;
        push_char(&mut text, reversed[i]);
    }
    proof {
        assert(taken.take(taken.len() as int) =~= taken);
    }
    text
}

impl SocketText {
    /// The address as it is written in a URI: `ip:port`, with the address in
    /// square brackets where it is an IPv6 one.
    pub open spec fn text(self) -> Seq<char> {
        if self.ip.v6 {
            seq!['['] + self.ip.text + seq![']', ':'] + decimal_digits(self.port as nat)
        } else {
            self.ip.text + seq![':'] + decimal_digits(self.port as nat)
        }
    }
}

impl IpLiteral {
    /// A copy of this address.
    pub fn duplicate(&self) -> (copy: Self)
        ensures
            copy@ == self@,
    {
        IpLiteral { text: self.text.clone(), v6: self.v6 }
    }
}

impl SocketLiteral {
    /// A copy of this address.
    pub fn duplicate(&self) -> (copy: Self)
        ensures
            copy@ == self@,
    {
        SocketLiteral { ip: self.ip.duplicate(), port: self.port }
    }

    /// The address as it is written in a URI.
    pub fn text(&self) -> (text: String)
        ensures
            text@ == self@.text(),
    {
        let mut text = String::new();
        if self.ip.v6 {
            push_char(&mut text, '[');
        }
        let mut text = joined(text.as_str(), self.ip.text.as_str());
        if self.ip.v6 {
            push_char(&mut text, ']');
        }
        push_char(&mut text, ':');
        let digits = port_digits(self.port);
        let text = joined(text.as_str(), digits.as_str());
        assert(text@ =~= self@.text());
        text
    }
}

/// The destination that a literal address names: the address with its own
/// port, or with the default port where it has none. A name that is no
/// address names none.
pub open spec fn spec_ip_with_port(parsed: LiteralReading) -> Option<Target> {
    match parsed.socket {
        Some(socket) => Some(Target::Literal(socket)),
        None => match parsed.ip {
            Some(ip) => Some(Target::Literal(SocketText { ip, port: DEFAULT_PORT })),
            None => None,
        },
    }
}

/// What `dest` is, where there is one.
pub open spec fn target_of(dest: Option<FedDest>) -> Option<Target> {
    match dest {
        Some(dest) => Some(dest@),
        None => None,
    }
}

/// Reads a server name as a literal address, given what reading it as an
/// address produced.
pub fn get_ip_with_port(parsed: &ParsedLiteral) -> (dest: Option<FedDest>)
    ensures
        target_of(dest) == spec_ip_with_port(parsed@),
{
    match &parsed.socket {
        Some(socket) => Some(FedDest::Literal(socket.duplicate())),
        None => match &parsed.ip {
            Some(ip) => Some(
                FedDest::Literal(SocketLiteral { ip: ip.duplicate(), port: DEFAULT_PORT }),
            ),
            None => None,
        },
    }
}

/// The text `:8448`.
pub open spec fn default_port_suffix() -> Seq<char> {
    seq![':', '8', '4', '4', '8']
}

/// A host name split at its first colon; the part from the colon on is the
/// port complement, `:8448` where the name has no colon.
pub open spec fn spec_add_port(name: Seq<char>) -> Target {
    match name.index_of_first(':') {
        Some(at) => Target::Named(name.take(at), name.skip(at)),
        None => Target::Named(name, default_port_suffix()),
    }
}

/// The text `:8448`.
pub fn default_port_text() -> (text: String)
    ensures
        text@ == default_port_suffix(),
{
    let mut port = String::new();
    push_char(&mut port, ':');
    push_char(&mut port, '8');
    push_char(&mut port, '4');
    push_char(&mut port, '4');
    push_char(&mut port, '8');
    assert(port@ =~= default_port_suffix());
    port
}

/// Splits a host name into the host and its port complement, which is
/// `:8448` where the name gives none.
pub fn add_port_to_hostname(destination_str: &str) -> (dest: FedDest)
    ensures
        dest@ == spec_add_port(destination_str@),
{
    let chars = chars_of(destination_str);
    match find_char(&chars, ':') {
        None => {
            assert(chars@.subrange(0, chars@.len() as int) =~= chars@);
            FedDest::Named(string_from_chars(&chars, 0, chars.len()), default_port_text())
        },
        Some(pos) => {
            let host = string_from_chars(&chars, 0, pos);
            let port = string_from_chars(&chars, pos, chars.len());
            FedDest::Named(host, port)
        },
    }
}

impl Target {
    /// The destination as it is written after the scheme of a URI.
    pub open spec fn uri(self) -> Seq<char> {
        match self {
            Target::Literal(socket) => socket.text(),
            Target::Named(host, port) => host + port,
        }
    }

    /// The host of the destination.
    pub open spec fn hostname(self) -> Seq<char> {
        match self {
            Target::Literal(socket) => socket.ip.text,
            Target::Named(host, _) => host,
        }
    }

    /// The port of the destination: the one of a literal address, or the
    /// one that follows the colon of a host's complement.
    pub open spec fn port(self) -> Option<u16> {
        match self {
            Target::Literal(socket) => Some(socket.port),
            Target::Named(_, port) => if port.len() == 0 {
                None
            } else {
                spec_parse_port(port.skip(1))
            },
        }
    }
}

impl FedDest {
    /// A copy of this destination.
    pub fn duplicate(&self) -> (copy: Self)
        ensures
            copy@ == self@,
    {
        match self {
            FedDest::Literal(socket) => FedDest::Literal(socket.duplicate()),
            FedDest::Named(host, port) => FedDest::Named(host.clone(), port.clone()),
        }
    }

    /// The base of the URLs under which the destination is reached.
    pub fn into_https_string(self) -> (url: String)
        ensures
            url@ == "https://"@ + self@.uri(),
    {
        let tail = self.into_uri_string();
        joined("https://", tail.as_str())
    }

    /// The destination as host and port, the way a Host header names it.
    pub fn into_uri_string(self) -> (uri: String)
        ensures
            uri@ == self@.uri(),
    {
        match self {
            FedDest::Literal(addr) => addr.text(),
            FedDest::Named(host, port) => joined(host.as_str(), port.as_str()),
        }
    }

    /// The host of the destination.
    pub fn hostname(&self) -> (host: String)
        ensures
            host@ == self@.hostname(),
    {
        match self {
            FedDest::Literal(addr) => addr.ip.text.clone(),
            FedDest::Named(host, _) => host.clone(),
        }
    }

    /// The port of the destination, where it names one.
    pub fn port(&self) -> (port: Option<u16>)
        ensures
            port == self@.port(),
    {
        match self {
            FedDest::Literal(addr) => Some(addr.port),
            FedDest::Named(_, port) => {
                let chars = chars_of(port.as_str());
                if chars.len() == 0 {
                    None
                } else {
                    let digits = string_from_chars(&chars, 1, chars.len());
                    assert(chars@.subrange(1, chars@.len() as int) =~= chars@.skip(1));
                    parse_port(digits.as_str())
                }
            },
        }
    }
}

} // verus!
