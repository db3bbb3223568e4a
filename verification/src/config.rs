//! The rules for what is asked for on the command line.

use crate::backpressure::Mode;
use crate::bounded::{byte_count, byte_len};
use crate::catalog::requests::{characters, is_space, space};
use crate::endpoint::{Endpoint, Family};
use crate::jobs::backfill::AddressPolicy;
use vstd::prelude::*;

verus! {

/// Why something that is asked for is refused.
#[derive(Clone, Copy, Debug, PartialEq, Eq, Structural)]
pub enum ConfigError {
    /// The name of the instance is empty or too long.
    InstanceName,
    /// The address to listen on is of the other family.
    ListenFamily,
    /// The address of a neighbour has no port.
    MissingPort,
    /// The port of a neighbour is no port.
    InvalidPort,
    /// The host of a neighbour is empty or holds space, or its port is zero.
    EmptyHost,
    /// The address of a neighbour holds colons, and is not written in brackets.
    Unbracketed,
    /// The monitor would listen to others.
    NotLoopback,
}

impl ConfigError {
    /// What is told of a refusal.
    pub open spec fn text(self) -> Seq<char> {
        match self {
            ConfigError::InstanceName => "实例名必须为 1～128 字节"@,
            ConfigError::ListenFamily => "监听地址族不匹配"@,
            ConfigError::MissingPort => "引导地址必须包含端口"@,
            ConfigError::InvalidPort => "无效引导端口"@,
            ConfigError::EmptyHost => "引导地址和非零端口不能为空"@,
            ConfigError::Unbracketed => "IPv6 引导地址必须使用 [地址]:端口"@,
            ConfigError::NotLoopback => "监控只能监听 loopback"@,
        }
    }

    /// What is told of the refusal.
    pub fn message(self) -> (message: &'static str)
        ensures
            message@ == self.text(),
    {
        match self {
            ConfigError::InstanceName => "实例名必须为 1～128 字节",
            ConfigError::ListenFamily => "监听地址族不匹配",
            ConfigError::MissingPort => "引导地址必须包含端口",
            ConfigError::InvalidPort => "无效引导端口",
            ConfigError::EmptyHost => "引导地址和非零端口不能为空",
            ConfigError::Unbracketed => "IPv6 引导地址必须使用 [地址]:端口",
            ConfigError::NotLoopback => "监控只能监听 loopback",
        }
    }
}

/// The longest name of an instance, in bytes.
pub const INSTANCE_BYTES: usize = 128;

/// Accepts the name of an instance. It is measured in bytes, not in characters.
pub fn instance_name(value: &str) -> (result: Result<String, ConfigError>)
    ensures
        0 < byte_count(value@) <= INSTANCE_BYTES ==> result is Ok && result->Ok_0@ == value@,
        !(0 < byte_count(value@) <= INSTANCE_BYTES) ==> result == Err::<String, ConfigError>(
            ConfigError::InstanceName,
        ),
{
    let length: usize = byte_len(value);
    if length == 0 || length > INSTANCE_BYTES {
        Err(ConfigError::InstanceName)
    } else {
        Ok(value.to_owned())
    }
}

/// Accepts an address to listen on that is of a family.
pub fn listen(address: Endpoint, family: Family) -> (result: Result<Endpoint, ConfigError>)
    ensures
        address.family == family ==> result == Ok::<Endpoint, ConfigError>(address),
        address.family != family ==> result == Err::<Endpoint, ConfigError>(
            ConfigError::ListenFamily,
        ),
{
    if address.family == family {
        Ok(address)
    } else {
        Err(ConfigError::ListenFamily)
    }
}

/// Whether an address is one of this machine alone.
pub open spec fn is_loopback(address: Endpoint) -> bool {
    match address.family {
        Family::V4 => 0x7f00_0000 <= address.ip <= 0x7fff_ffff,
        Family::V6 => address.ip == 1,
    }
}

/// Accepts an address for the monitor that is one of this machine alone.
pub fn monitor_address(address: Endpoint) -> (result: Result<Endpoint, ConfigError>)
    ensures
        is_loopback(address) ==> result == Ok::<Endpoint, ConfigError>(address),
        !is_loopback(address) ==> result == Err::<Endpoint, ConfigError>(ConfigError::NotLoopback),
{
    let own = match address.family {
        Family::V4 => 0x7f00_0000 <= address.ip && address.ip <= 0x7fff_ffff,
        Family::V6 => address.ip == 1,
    };
    if own {
        Ok(address)
    } else {
        Err(ConfigError::NotLoopback)
    }
}

/// The place of the last colon.
pub open spec fn last_colon(text: Seq<char>) -> Option<int>
    decreases text.len(),
{
    if text.len() == 0 {
        None
    } else if text.last() == ':' {
        Some(text.len() - 1)
    } else {
        last_colon(text.drop_last())
    }
}

/// The number that digits stand for.
pub open spec fn digits_value(text: Seq<char>) -> Option<int>
    decreases text.len(),
{
    if text.len() == 0 {
        Some(0)
    } else {
        match digits_value(text.drop_last()) {
            None => None,
            Some(high) => if '0' <= text.last() <= '9' {
                Some(high * 10 + (text.last() as int - '0' as int))
            } else {
                None
            },
        }
    }
}

/// The port that a text stands for: digits, perhaps behind a plus sign.
pub open spec fn port_value(text: Seq<char>) -> Option<int> {
    let digits = if text.len() > 0 && text[0] == '+' {
        text.drop_first()
    } else {
        text
    };
    if digits.len() == 0 {
        None
    } else {
        match digits_value(digits) {
            Some(port) => if port <= u16::MAX {
                Some(port)
            } else {
                None
            },
            None => None,
        }
    }
}

/// Why the address of a neighbour is refused. `socket` says whether the whole is a socket address.
pub open spec fn bootstrap_refusal(text: Seq<char>, socket: bool) -> Option<ConfigError> {
    match last_colon(text) {
        None => Some(ConfigError::MissingPort),
        Some(at) => {
            let host = text.take(at);
            match port_value(text.skip(at + 1)) {
                None => Some(ConfigError::InvalidPort),
                Some(port) => if port == 0 || host.len() == 0 || exists|i: int|
                    0 <= i < host.len() && is_space(#[trigger] host[i]) {
                    Some(ConfigError::EmptyHost)
                } else if (host.contains(':') || host[0] == '[') && !socket {
                    Some(ConfigError::Unbracketed)
                } else {
                    None
                },
            }
        },
    }
}

/// A prefix without a number leaves none to the whole.
proof fn lemma_digits_failure(text: Seq<char>, n: int)
    requires
        0 <= n <= text.len(),
        digits_value(text.take(n)) is None,
    ensures
        digits_value(text) is None,
    decreases text.len(),
{
    if n == text.len() {
        assert(text.take(n) =~= text);
    } else {
        assert(text.drop_last().take(n) =~= text.take(n));
        lemma_digits_failure(text.drop_last(), n);
    }
}

/// A number does not get smaller by more digits.
proof fn lemma_digits_grow(text: Seq<char>, n: int)
    requires
        0 <= n <= text.len(),
        digits_value(text) is Some,
    ensures
        digits_value(text.take(n)) is Some,
        0 <= digits_value(text.take(n))->0 <= digits_value(text)->0,
    decreases text.len(),
{
    if text.len() == 0 {
        assert(text.take(n) =~= text);
    } else if n < text.len() {
        lemma_digits_grow(text.drop_last(), n);
        assert(text.drop_last().take(n) =~= text.take(n));
    } else {
        assert(text.take(n) =~= text);
        lemma_digits_grow(text.drop_last(), n - 1);
        assert(text.drop_last().take(n - 1) =~= text.drop_last());
    }
}

/// The port that characters stand for.
fn parse_port(text: &[char]) -> (port: Option<u16>)
    ensures
        port is Some == port_value(text@) is Some,
        port is Some ==> port->0 == port_value(text@)->0,
{
    let start: usize = if text.len() > 0 && text[0] == '+' {
        1
    } else {
        0
    };
    if start >= text.len() {
        return None;
    }
    let ghost digits = if start == 1 {
        text@.drop_first()
    } else {
        text@
    };
    let mut value: u32 = 0;
    let mut at: usize = start;
    assert(digits.take(0) =~= Seq::<char>::empty());
    while at < text.len()
        invariant
            start <= at <= text@.len(),
            start <= 1,
            digits == (if start == 1 {
                text@.drop_first()
            } else {
                text@
            }),
            digits.len() == text@.len() - start,
            digits.len() > 0,
            port_value(text@) == (match digits_value(digits) {
                Some(port) => if port <= u16::MAX {
                    Some(port)
                } else {
                    None
                },
                None => None,
            }),
            value <= u16::MAX,
            digits_value(digits.take(at - start)) == Some(value as int),
        decreases text@.len() - at,
    {
        let c: char = text[at];
        let ghost n = at - start;
        proof {
            assert(digits[n] == c);
            assert(digits.take(n + 1).drop_last() =~= digits.take(n));
            assert(digits.take(n + 1).last() == c);
        }
        if c < '0' || c > '9' {
            proof {
                lemma_digits_failure(digits, n + 1);
            }
            return None;
        }
        let digit: u32 = c as u32 - '0' as u32;
        let next: u32 = value * 10 + digit;
        if next > u16::MAX as u32 {
            proof {
                if digits_value(digits) is Some {
                    lemma_digits_grow(digits, n + 1);
                }
            }
            return None;
        }
        value = next;
        at += 1;
    }
    assert(digits.take(digits.len() as int) =~= digits);
    Some(value as u16)
}

/// Accepts the address of a neighbour. `socket` says whether the whole is a socket address.
pub fn bootstrap_address(value: &str, socket: bool) -> (result: Result<String, ConfigError>)
    ensures
        match bootstrap_refusal(value@, socket) {
            Some(error) => result == Err::<String, ConfigError>(error),
            None => result is Ok && result->Ok_0@ == value@,
        },
{
    let text = characters(value);
    let mut at: usize = text.len();
    assert(text@.take(at as int) =~= text@);
    while at > 0 && text[at - 1] != ':'
        invariant
            at <= text@.len(),
            text@ == value@,
            last_colon(text@) == last_colon(text@.take(at as int)),
        decreases at,
    {
        assert(text@.take(at as int).last() == text@[at - 1]);
        assert(text@.take(at as int).drop_last() =~= text@.take(at - 1));
        at -= 1;
    }
    if at == 0 {
        return Err(ConfigError::MissingPort);
    }
    let colon: usize = at - 1;
    assert(text@.take(at as int).last() == ':');
    let ghost host = text@.take(colon as int);
    let port_text = vstd::slice::slice_subrange(text.as_slice(), at, text.len());
    assert(port_text@ =~= text@.skip(colon + 1));
    match parse_port(port_text) {
        None => Err(ConfigError::InvalidPort),
        Some(port) => {
            let mut spaced = false;
            let mut colons = false;
            for i in 0..colon
                invariant
                    colon < text@.len(),
                    host == text@.take(colon as int),
                    spaced == exists|k: int| 0 <= k < i && is_space(#[trigger] host[k]),
                    colons == exists|k: int| 0 <= k < i && #[trigger] host[k] == ':',
            {
                let c: char = text[i];
                assert(host[i as int] == c);
                if space(c) {
                    spaced = true;
                }
                if c == ':' {
                    colons = true;
                }
            }
            assert(colons == host.contains(':'));
            if port == 0 || colon == 0 || spaced {
                return Err(ConfigError::EmptyHost);
            }
            assert(host[0] == text@[0]);
            if (colons || text[0] == '[') && !socket {
                return Err(ConfigError::Unbracketed);
            }
            Ok(value.to_owned())
        },
    }
}

/// The policy for addresses.
pub fn policy(allow_local: bool) -> (policy: AddressPolicy)
    ensures
        policy == if allow_local {
            AddressPolicy::LocalUnicast
        } else {
            AddressPolicy::PublicOnly
        },
{
    if allow_local {
        AddressPolicy::LocalUnicast
    } else {
        AddressPolicy::PublicOnly
    }
}

/// Where the neighbours come from.
#[derive(Clone, Copy, Debug, PartialEq, Eq, Structural)]
pub enum SeedSource {
    Nowhere,
    BuiltIn,
    Given,
}

/// Where the neighbours come from: a given list replaces the one that is built in.
pub fn seed_source(no_bootstrap: bool, given: usize) -> (source: SeedSource)
    ensures
        source == if no_bootstrap {
            SeedSource::Nowhere
        } else if given == 0 {
            SeedSource::BuiltIn
        } else {
            SeedSource::Given
        },
{
    if no_bootstrap {
        SeedSource::Nowhere
    } else if given == 0 {
        SeedSource::BuiltIn
    } else {
        SeedSource::Given
    }
}

/// The neighbours that are built in.
pub open spec fn built_in() -> Seq<Seq<char>> {
    seq![
        "dht.libtorrent.org:25401"@,
        "router.bittorrent.com:6881"@,
        "dht.transmissionbt.com:6881"@,
    ]
}

/// The neighbours to start from.
pub fn seeds(no_bootstrap: bool, given: Vec<String>) -> (seeds: Vec<String>)
    ensures
        no_bootstrap ==> seeds@.len() == 0,
        !no_bootstrap && given@.len() > 0 ==> seeds@ == given@,
        !no_bootstrap && given@.len() == 0 ==> {
            &&& seeds@.len() == built_in().len()
            &&& forall|i: int| 0 <= i < seeds@.len() ==> (#[trigger] seeds@[i])@ == built_in()[i]
        },
{
    match seed_source(no_bootstrap, given.len()) {
        SeedSource::Nowhere => Vec::new(),
        SeedSource::Given => given,
        SeedSource::BuiltIn => {
            let mut seeds: Vec<String> = Vec::new();
            seeds.push("dht.libtorrent.org:25401".to_owned());
            seeds.push("router.bittorrent.com:6881".to_owned());
            seeds.push("dht.transmissionbt.com:6881".to_owned());
            seeds
        },
    }
}

/// What sampling goes by: a choice has an effect only where torrents are both sampled and fetched.
pub fn effective_backpressure(sample: bool, fetch: bool, chosen: Mode) -> (mode: Mode)
    ensures
        mode == if sample && fetch {
            chosen
        } else {
            Mode::Capacity
        },
{
    if sample && fetch {
        chosen
    } else {
        Mode::Capacity
    }
}

/// The names of the refusals.
pub proof fn lemma_refusal_texts()
    ensures
        ConfigError::InstanceName.text() == "实例名必须为 1～128 字节"@,
        ConfigError::ListenFamily.text() == "监听地址族不匹配"@,
        ConfigError::MissingPort.text() == "引导地址必须包含端口"@,
        ConfigError::InvalidPort.text() == "无效引导端口"@,
        ConfigError::EmptyHost.text() == "引导地址和非零端口不能为空"@,
        ConfigError::Unbracketed.text() == "IPv6 引导地址必须使用 [地址]:端口"@,
        ConfigError::NotLoopback.text() == "监控只能监听 loopback"@,
        INSTANCE_BYTES == 128,
{
}

/// A loopback address starts with the byte 127 in the one family, and is one in the other.
pub proof fn lemma_loopback(address: Endpoint)
    ensures
        address.family is V4 ==> (is_loopback(address) <==> address.ip / 0x1_000_000 == 127),
        address.family is V6 ==> (is_loopback(address) <==> address.ip == 1),
{
}

/// The last colon of a text has none behind it.
pub proof fn lemma_last_colon(text: Seq<char>)
    ensures
        match last_colon(text) {
            Some(at) => {
                &&& 0 <= at < text.len()
                &&& text[at] == ':'
                &&& forall|i: int| at < i < text.len() ==> #[trigger] text[i] != ':'
            },
            None => !text.contains(':'),
        },
    decreases text.len(),
{
    if text.len() > 0 && text.last() != ':' {
        let front = text.drop_last();
        lemma_last_colon(front);
        match last_colon(front) {
            Some(at) => {
                assert forall|i: int| at < i < text.len() implies #[trigger] text[i] != ':' by {
                    if i < front.len() {
                        assert(front[i] == text[i]);
                    }
                }
            },
            None => {
                assert forall|i: int| 0 <= i < text.len() implies text[i] != ':' by {
                    if i < front.len() {
                        assert(front[i] == text[i]);
                        assert(front.contains(front[i]));
                    }
                }
            },
        }
    }
}

/// A port is read digit by digit, perhaps behind a plus sign, and must be below 65536.
pub proof fn lemma_port(text: Seq<char>, digit: int, c: char)
    requires
        0 <= digit < 10,
    ensures
        digits_value(Seq::empty()) == Some(0int),
        digits_value(text) matches Some(high) ==> digits_value(text.push("0123456789"@[digit]))
            == Some(10 * high + digit),
        digits_value(text) is None ==> digits_value(text.push(c)) is None,
        !('0' <= c <= '9') ==> digits_value(text.push(c)) is None,
        port_value(Seq::empty()) is None,
        port_value(seq!['+']) is None,
        text.len() > 0 && text[0] != '+' ==> port_value(text) == match digits_value(text) {
            Some(port) => if port < 0x1_0000 { Some(port) } else { None },
            None => None,
        },
        text.len() > 0 && text[0] != '+' ==> port_value(seq!['+'] + text) == port_value(text),
        text.len() > 0 && text[0] == '+' ==> port_value(seq!['+'] + text) is None,
{
    reveal_strlit("0123456789");
    let next = "0123456789"@[digit];
    assert(text.push(next).drop_last() =~= text);
    assert(text.push(c).drop_last() =~= text);
    assert(seq!['+'].drop_first() =~= Seq::<char>::empty());
    assert((seq!['+'] + text).drop_first() =~= text);
    if text.len() > 0 && text[0] == '+' {
        lemma_plus_is_no_digit(text);
    }
}

proof fn lemma_plus_is_no_digit(text: Seq<char>)
    requires
        text.len() > 0,
        text[0] == '+',
    ensures
        digits_value(text) is None,
    decreases text.len(),
{
    if text.len() > 1 {
        assert(text.drop_last()[0] == '+');
        lemma_plus_is_no_digit(text.drop_last());
    }
}

/// The address of a neighbour is a host and a port behind its last colon. Without a colon it has no
/// port; what stands there must be one; it must not be zero, and the host must be there and hold no
/// space. A host that holds colons or starts with a bracket must be an address of a socket.
pub proof fn lemma_neighbour(host: Seq<char>, port: Seq<char>, socket: bool)
    requires
        !port.contains(':'),
    ensures
        bootstrap_refusal(port, socket) == Some(ConfigError::MissingPort),
        ({
            let refusal = bootstrap_refusal(host + seq![':'] + port, socket);
            let number = port_value(port);
            let spaced = exists|i: int| 0 <= i < host.len() && is_space(#[trigger] host[i]);
            let usable = number is Some && number->0 != 0 && host.len() > 0 && !spaced;
            let bracketed = host.contains(':') || (host.len() > 0 && host[0] == '[');
            &&& number is None ==> refusal == Some(ConfigError::InvalidPort)
            &&& number is Some && !usable ==> refusal == Some(ConfigError::EmptyHost)
            &&& usable && bracketed && !socket ==> refusal == Some(ConfigError::Unbracketed)
            &&& usable && (!bracketed || socket) ==> refusal is None
        }),
{
    let text = host + seq![':'] + port;
    lemma_last_colon(text);
    lemma_last_colon(port);
    let at = host.len() as int;
    assert(text[at] == ':');
    if last_colon(text) is None {
        assert(text.contains(':'));
    }
    let found = last_colon(text)->0;
    if found > at {
        assert(port[found - at - 1] == ':');
    }
    if last_colon(port) is Some {
        assert(port.contains(port[last_colon(port)->0]));
    }
    assert(text.take(at) =~= host);
    assert(text.skip(at + 1) =~= port);
}

/// The neighbours that are built in.
pub proof fn lemma_built_in()
    ensures
        built_in().len() == 3,
        built_in()[0] == "dht.libtorrent.org:25401"@,
        built_in()[1] == "router.bittorrent.com:6881"@,
        built_in()[2] == "dht.transmissionbt.com:6881"@,
{
}

} // verus!
