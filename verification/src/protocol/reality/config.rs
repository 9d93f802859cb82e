//! REALITY server configuration.

use super::crypto::{self, parse_private_key, parse_short_id};
use super::RealityError;
use crate::protocol::address::{self, Address, AddressView, SocketAddr};
use crate::protocol::tls::{self, validate_sni, TlsError};
use crate::text::{self, joined, str_eq, to_ascii_lowercase};
use crate::wire::same;
use vstd::prelude::*;
use vstd::string::*;

verus! {

pub const DEFAULT_HANDSHAKE_TIMEOUT_SECS: u64 = 10;

pub const DEFAULT_MAX_CLIENT_HELLO_SIZE: usize = 16384;

pub const MIN_CLIENT_HELLO_SIZE: usize = 512;

/// No peer makes the server buffer more than this.
pub const MAX_CLIENT_HELLO_CEILING: usize = 65536;

/// The `[reality]` table.
pub struct RealityAcceptorConfig {
    pub addr: String,
    pub target: String,
    pub server_names: Vec<String>,
    pub private_key: String,
    pub short_ids: Vec<String>,
    pub max_time_diff_secs: u64,
    pub handshake_timeout_secs: u64,
    pub max_client_hello_size: usize,
}

/// Validated REALITY parameters. Server names are in lower case; no name and no short id occurs
/// twice.
pub struct RealityServer {
    pub addr: String,
    pub target: Address,
    pub server_names: Vec<String>,
    pub private_key: [u8; 32],
    pub short_ids: Vec<[u8; 8]>,
    pub max_time_diff_secs: Option<u64>,
    pub handshake_timeout_secs: u64,
    pub max_client_hello_size: usize,
}

/// The mathematical content of a `RealityServer`.
pub struct ServerView {
    pub addr: Seq<char>,
    pub target: AddressView,
    pub server_names: Seq<Seq<char>>,
    pub private_key: Seq<u8>,
    pub short_ids: Seq<Seq<u8>>,
    pub max_time_diff_secs: Option<u64>,
    pub handshake_timeout_secs: u64,
    pub max_client_hello_size: usize,
}

/// The texts of a list of strings.
pub open spec fn texts(list: Seq<String>) -> Seq<Seq<char>> {
    list.map_values(|s: String| s@)
}

/// The bytes of a list of short ids.
pub open spec fn id_bytes(list: Seq<[u8; 8]>) -> Seq<Seq<u8>> {
    list.map_values(|id: [u8; 8]| id@)
}

impl View for RealityServer {
    type V = ServerView;

    open spec fn view(&self) -> ServerView {
        ServerView {
            addr: self.addr@,
            target: self.target@,
            server_names: texts(self.server_names@),
            private_key: self.private_key@,
            short_ids: id_bytes(self.short_ids@),
            max_time_diff_secs: self.max_time_diff_secs,
            handshake_timeout_secs: self.handshake_timeout_secs,
            max_client_hello_size: self.max_client_hello_size,
        }
    }
}

/// Why a REALITY configuration is refused.
#[derive(Debug)]
pub enum RealityConfigError {
    ZeroHandshakeTimeout,
    HelloSize,
    InvalidTarget(String),
    TargetPortZero,
    NoServerNames,
    ServerName(TlsError),
    PrivateKey(RealityError),
    NoShortIds,
    ShortId(RealityError),
}

/// The mathematical content of a `RealityConfigError`.
pub enum RealityConfigErrorView {
    ZeroHandshakeTimeout,
    HelloSize,
    InvalidTarget(Seq<char>),
    TargetPortZero,
    NoServerNames,
    ServerName(TlsError),
    PrivateKey(RealityError),
    NoShortIds,
    ShortId(RealityError),
}

impl View for RealityConfigError {
    type V = RealityConfigErrorView;

    open spec fn view(&self) -> RealityConfigErrorView {
        match *self {
            RealityConfigError::ZeroHandshakeTimeout => {
                RealityConfigErrorView::ZeroHandshakeTimeout
            },
            RealityConfigError::HelloSize => RealityConfigErrorView::HelloSize,
            RealityConfigError::InvalidTarget(target) => RealityConfigErrorView::InvalidTarget(
                target@,
            ),
            RealityConfigError::TargetPortZero => RealityConfigErrorView::TargetPortZero,
            RealityConfigError::NoServerNames => RealityConfigErrorView::NoServerNames,
            RealityConfigError::ServerName(error) => RealityConfigErrorView::ServerName(error),
            RealityConfigError::PrivateKey(error) => RealityConfigErrorView::PrivateKey(error),
            RealityConfigError::NoShortIds => RealityConfigErrorView::NoShortIds,
            RealityConfigError::ShortId(error) => RealityConfigErrorView::ShortId(error),
        }
    }
}

impl RealityConfigErrorView {
    /// The words of the error.
    pub open spec fn text(self) -> Seq<char> {
        match self {
            RealityConfigErrorView::ZeroHandshakeTimeout => {
                "reality: handshake_timeout_secs must be greater than zero"@
            },
            RealityConfigErrorView::HelloSize => {
                "reality: max_client_hello_size must be between 512 and 65536"@
            },
            RealityConfigErrorView::InvalidTarget(target) => "reality: invalid target address "@
                + target,
            RealityConfigErrorView::TargetPortZero => {
                "reality: target must include a non-zero port"@
            },
            RealityConfigErrorView::NoServerNames => {
                "reality: at least one server_name is required"@
            },
            RealityConfigErrorView::ServerName(error) => error.text(),
            RealityConfigErrorView::PrivateKey(error) => error.text(),
            RealityConfigErrorView::NoShortIds => "reality: at least one short_id is required"@,
            RealityConfigErrorView::ShortId(error) => error.text(),
        }
    }
}

impl RealityConfigError {
    /// The words of the error.
    pub fn message(&self) -> (r: String)
        ensures
            r@ == self@.text(),
    {
        match self {
            RealityConfigError::ZeroHandshakeTimeout => {
                "reality: handshake_timeout_secs must be greater than zero".to_string()
            },
            RealityConfigError::HelloSize => {
                "reality: max_client_hello_size must be between 512 and 65536".to_string()
            },
            RealityConfigError::InvalidTarget(target) => joined(
                "reality: invalid target address ".to_string(),
                target,
            ),
            RealityConfigError::TargetPortZero => {
                "reality: target must include a non-zero port".to_string()
            },
            RealityConfigError::NoServerNames => {
                "reality: at least one server_name is required".to_string()
            },
            RealityConfigError::ServerName(error) => error.message(),
            RealityConfigError::PrivateKey(error) => error.message(),
            RealityConfigError::NoShortIds => {
                "reality: at least one short_id is required".to_string()
            },
            RealityConfigError::ShortId(error) => error.message(),
        }
    }
}

/// `s` with `x` at its end, unless it is in there.
pub open spec fn with_element<A>(s: Seq<A>, x: A) -> Seq<A> {
    if s.contains(x) {
        s
    } else {
        s.push(x)
    }
}

/// The names of a list in lower case, each once, or why the first bad one is refused.
pub open spec fn names_of(list: Seq<String>) -> Result<Seq<Seq<char>>, RealityConfigErrorView>
    decreases list.len(),
{
    if list.len() == 0 {
        Ok(Seq::empty())
    } else {
        match names_of(list.drop_last()) {
            Err(error) => Err(error),
            Ok(names) => if tls::is_sni(list.last()@) {
                Ok(with_element(names, text::lowercase(list.last()@)))
            } else {
                Err(RealityConfigErrorView::ServerName(TlsError::InvalidSni))
            },
        }
    }
}

/// The short ids of a list, each once, or why the first bad one is refused.
pub open spec fn short_ids_of(list: Seq<String>) -> Result<Seq<Seq<u8>>, RealityConfigErrorView>
    decreases list.len(),
{
    if list.len() == 0 {
        Ok(Seq::empty())
    } else {
        match short_ids_of(list.drop_last()) {
            Err(error) => Err(error),
            Ok(ids) => match crypto::short_id_of(list.last()@) {
                Ok(id) => Ok(with_element(ids, id)),
                Err(error) => Err(RealityConfigErrorView::ShortId(error)),
            },
        }
    }
}

/// The server that a configuration describes, or why it is refused. `literal` is the IP literal
/// that the target is, if it is one.
pub open spec fn server_of(c: RealityAcceptorConfig, literal: Option<SocketAddr>) -> Result<
    ServerView,
    RealityConfigErrorView,
> {
    if c.handshake_timeout_secs == 0 {
        Err(RealityConfigErrorView::ZeroHandshakeTimeout)
    } else if c.max_client_hello_size < MIN_CLIENT_HELLO_SIZE || c.max_client_hello_size
        > MAX_CLIENT_HELLO_CEILING {
        Err(RealityConfigErrorView::HelloSize)
    } else {
        match address::address_of_text(c.target@, literal) {
            None => Err(RealityConfigErrorView::InvalidTarget(c.target@)),
            Some(target) => if target.port() == 0 {
                Err(RealityConfigErrorView::TargetPortZero)
            } else if c.server_names@.len() == 0 {
                Err(RealityConfigErrorView::NoServerNames)
            } else {
                match names_of(c.server_names@) {
                    Err(error) => Err(error),
                    Ok(server_names) => match crypto::private_key_of(c.private_key@) {
                        Err(error) => Err(RealityConfigErrorView::PrivateKey(error)),
                        Ok(private_key) => if c.short_ids@.len() == 0 {
                            Err(RealityConfigErrorView::NoShortIds)
                        } else {
                            match short_ids_of(c.short_ids@) {
                                Err(error) => Err(error),
                                Ok(short_ids) => Ok(
                                    ServerView {
                                        addr: c.addr@,
                                        target,
                                        server_names,
                                        private_key,
                                        short_ids,
                                        max_time_diff_secs: if c.max_time_diff_secs == 0 {
                                            None
                                        } else {
                                            Some(c.max_time_diff_secs)
                                        },
                                        handshake_timeout_secs: c.handshake_timeout_secs,
                                        max_client_hello_size: c.max_client_hello_size,
                                    },
                                ),
                            }
                        },
                    },
                }
            },
        }
    }
}

proof fn lemma_names_error_stays(list: Seq<String>, n: int)
    requires
        0 <= n <= list.len(),
        names_of(list.subrange(0, n)) is Err,
    ensures
        names_of(list) == names_of(list.subrange(0, n)),
    decreases list.len() - n,
{
    if n == list.len() {
        assert(list.subrange(0, n) =~= list);
    } else {
        assert(list.subrange(0, n + 1).drop_last() =~= list.subrange(0, n));
        lemma_names_error_stays(list, n + 1);
    }
}

proof fn lemma_ids_error_stays(list: Seq<String>, n: int)
    requires
        0 <= n <= list.len(),
        short_ids_of(list.subrange(0, n)) is Err,
    ensures
        short_ids_of(list) == short_ids_of(list.subrange(0, n)),
    decreases list.len() - n,
{
    if n == list.len() {
        assert(list.subrange(0, n) =~= list);
    } else {
        assert(list.subrange(0, n + 1).drop_last() =~= list.subrange(0, n));
        lemma_ids_error_stays(list, n + 1);
    }
}

/// A name is served exactly when it is, in lower case, one of the configured ones; no name is
/// kept twice.
pub proof fn lemma_names_are_a_set(list: Seq<String>)
    requires
        names_of(list) is Ok,
    ensures
        names_of(list)->Ok_0.no_duplicates(),
        forall|name: Seq<char>|
            #[trigger] names_of(list)->Ok_0.contains(name) <==> exists|i: int|
                0 <= i < list.len() && text::lowercase((#[trigger] list[i])@) == name,
    decreases list.len(),
{
    if list.len() > 0 {
        let before = list.drop_last();
        lemma_names_are_a_set(before);
        let names = names_of(before)->Ok_0;
        let all = names_of(list)->Ok_0;
        let last = text::lowercase(list.last()@);
        assert forall|name: Seq<char>| #[trigger] all.contains(name) <==> exists|i: int|
            0 <= i < list.len() && text::lowercase((#[trigger] list[i])@) == name by {
            lemma_contains_with_element(names, last, name);
            if exists|i: int|
                0 <= i < before.len() && text::lowercase((#[trigger] before[i])@) == name {
                let i = choose|i: int|
                    0 <= i < before.len() && text::lowercase((#[trigger] before[i])@) == name;
                assert(text::lowercase(list[i]@) == name);
            }
            if exists|i: int| 0 <= i < list.len() && text::lowercase((#[trigger] list[i])@) == name {
                let i = choose|i: int|
                    0 <= i < list.len() && text::lowercase((#[trigger] list[i])@) == name;
                if i < before.len() {
                    assert(text::lowercase(before[i]@) == name);
                }
            }
            if last == name {
                assert(text::lowercase(list[list.len() - 1]@) == name);
            }
        }
    }
}

/// A short id is known exactly when it is one of the configured ones; no id is kept twice.
pub proof fn lemma_short_ids_are_a_set(list: Seq<String>)
    requires
        short_ids_of(list) is Ok,
    ensures
        short_ids_of(list)->Ok_0.no_duplicates(),
        forall|id: Seq<u8>|
            #[trigger] short_ids_of(list)->Ok_0.contains(id) <==> exists|i: int|
                0 <= i < list.len() && crypto::short_id_of((#[trigger] list[i])@) == Ok::<
                    _,
                    RealityError,
                >(id),
    decreases list.len(),
{
    if list.len() > 0 {
        let before = list.drop_last();
        lemma_short_ids_are_a_set(before);
        let ids = short_ids_of(before)->Ok_0;
        let all = short_ids_of(list)->Ok_0;
        let last = crypto::short_id_of(list.last()@)->Ok_0;
        assert forall|id: Seq<u8>| #[trigger] all.contains(id) <==> exists|i: int|
            0 <= i < list.len() && crypto::short_id_of((#[trigger] list[i])@) == Ok::<
                _,
                RealityError,
            >(id) by {
            lemma_contains_with_element(ids, last, id);
            if ids.contains(id) {
                let i = choose|i: int|
                    0 <= i < before.len() && crypto::short_id_of((#[trigger] before[i])@) == Ok::<
                        _,
                        RealityError,
                    >(id);
                assert(crypto::short_id_of(list[i]@) == Ok::<_, RealityError>(id));
            }
            if exists|i: int|
                0 <= i < list.len() && crypto::short_id_of((#[trigger] list[i])@) == Ok::<
                    _,
                    RealityError,
                >(id) {
                let i = choose|i: int|
                    0 <= i < list.len() && crypto::short_id_of((#[trigger] list[i])@) == Ok::<
                        _,
                        RealityError,
                    >(id);
                if i < before.len() {
                    assert(crypto::short_id_of(before[i]@) == Ok::<_, RealityError>(id));
                }
            }
            if last == id {
                assert(crypto::short_id_of(list[list.len() - 1]@) == Ok::<_, RealityError>(id));
            }
        }
    }
}

proof fn lemma_contains_with_element<A>(s: Seq<A>, x: A, y: A)
    ensures
        with_element(s, x).contains(y) <==> s.contains(y) || x == y,
{
    if s.contains(y) {
        let i = choose|i: int| 0 <= i < s.len() && s[i] == y;
        assert(with_element(s, x)[i] == y);
    }
    if x == y && !s.contains(x) {
        assert(s.push(x)[s.len() as int] == y);
    }
}

/// Whether a list of names holds `name`.
pub fn contains_name(names: &Vec<String>, name: &str) -> (r: bool)
    ensures
        r == texts(names@).contains(name@),
{
    let ghost all = texts(names@);
    for i in 0..names.len()
        invariant
            all == texts(names@),
            forall|k: int| 0 <= k < i ==> #[trigger] all[k] != name@,
    {
        assert(all[i as int] == names@[i as int]@);
        if str_eq(&names[i], name) {
            return true;
        }
    }
    false
}

/// Whether a list of short ids holds `id`.
pub fn contains_id(ids: &Vec<[u8; 8]>, id: &[u8; 8]) -> (r: bool)
    ensures
        r == id_bytes(ids@).contains(id@),
{
    let ghost all = id_bytes(ids@);
    for i in 0..ids.len()
        invariant
            all == id_bytes(ids@),
            forall|k: int| 0 <= k < i ==> #[trigger] all[k] != id@,
    {
        assert(all[i as int] == ids@[i as int]@);
        if same(&ids[i], id) {
            return true;
        }
    }
    false
}

fn collect_names(list: &Vec<String>) -> (r: Result<Vec<String>, RealityConfigError>)
    ensures
        match r {
            Ok(names) => names_of(list@) == Ok::<_, RealityConfigErrorView>(texts(names@)),
            Err(error) => names_of(list@) == Err::<Seq<Seq<char>>, _>(error@),
        },
{
    let mut names: Vec<String> = Vec::new();
    assert(texts(names@) =~= Seq::empty());
    for i in 0..list.len()
        invariant
            names_of(list@.subrange(0, i as int)) == Ok::<_, RealityConfigErrorView>(
                texts(names@),
            ),
    {
        let ghost next = list@.subrange(0, i + 1);
        assert(next.drop_last() =~= list@.subrange(0, i as int));
        assert(next.last() == list@[i as int]);
        match validate_sni(&list[i]) {
            Ok(()) => {},
            Err(error) => {
                proof {
                    lemma_names_error_stays(list@, i + 1);
                }
                return Err(RealityConfigError::ServerName(error));
            },
        }
        let name = to_ascii_lowercase(&list[i]);
        if !contains_name(&names, &name) {
            let ghost before = texts(names@);
            names.push(name);
            assert(texts(names@) =~= before.push(name@));
        }
    }
    assert(list@.subrange(0, list@.len() as int) =~= list@);
    Ok(names)
}

fn collect_short_ids(list: &Vec<String>) -> (r: Result<Vec<[u8; 8]>, RealityConfigError>)
    ensures
        match r {
            Ok(ids) => short_ids_of(list@) == Ok::<_, RealityConfigErrorView>(id_bytes(ids@)),
            Err(error) => short_ids_of(list@) == Err::<Seq<Seq<u8>>, _>(error@),
        },
{
    let mut ids: Vec<[u8; 8]> = Vec::new();
    assert(id_bytes(ids@) =~= Seq::empty());
    for i in 0..list.len()
        invariant
            short_ids_of(list@.subrange(0, i as int)) == Ok::<_, RealityConfigErrorView>(
                id_bytes(ids@),
            ),
    {
        let ghost next = list@.subrange(0, i + 1);
        assert(next.drop_last() =~= list@.subrange(0, i as int));
        assert(next.last() == list@[i as int]);
        let id: [u8; 8] = match parse_short_id(&list[i]) {
            Ok(id) => id,
            Err(error) => {
                proof {
                    lemma_ids_error_stays(list@, i + 1);
                }
                return Err(RealityConfigError::ShortId(error));
            },
        };
        if !contains_id(&ids, &id) {
            let ghost before = id_bytes(ids@);
            ids.push(id);
            assert(id_bytes(ids@) =~= before.push(id@));
        }
    }
    assert(list@.subrange(0, list@.len() as int) =~= list@);
    Ok(ids)
}

impl RealityAcceptorConfig {
    /// A configuration with defaults for what is not given.
    pub fn new(
        addr: String,
        target: String,
        server_names: Vec<String>,
        private_key: String,
        short_ids: Vec<String>,
    ) -> (r: Self)
        ensures
            r == (RealityAcceptorConfig {
                addr,
                target,
                server_names,
                private_key,
                short_ids,
                max_time_diff_secs: 0,
                handshake_timeout_secs: DEFAULT_HANDSHAKE_TIMEOUT_SECS,
                max_client_hello_size: DEFAULT_MAX_CLIENT_HELLO_SIZE,
            }),
    {
        RealityAcceptorConfig {
            addr,
            target,
            server_names,
            private_key,
            short_ids,
            max_time_diff_secs: 0,
            handshake_timeout_secs: DEFAULT_HANDSHAKE_TIMEOUT_SECS,
            max_client_hello_size: DEFAULT_MAX_CLIENT_HELLO_SIZE,
        }
    }

    /// The server that the configuration describes. `target_literal` is the IP literal with port
    /// that the target is, if it is one.
    pub fn validate(&self, target_literal: Option<SocketAddr>) -> (r: Result<
        RealityServer,
        RealityConfigError,
    >)
        ensures
            match r {
                Ok(server) => server_of(*self, target_literal) == Ok::<_, RealityConfigErrorView>(
                    server@,
                ),
                Err(error) => server_of(*self, target_literal) == Err::<ServerView, _>(error@),
            },
    {
        if self.handshake_timeout_secs == 0 {
            return Err(RealityConfigError::ZeroHandshakeTimeout);
        }
        if self.max_client_hello_size < MIN_CLIENT_HELLO_SIZE || self.max_client_hello_size
            > MAX_CLIENT_HELLO_CEILING {
            return Err(RealityConfigError::HelloSize);
        }
        let target = match Address::from_text(&self.target, target_literal) {
            Some(target) => target,
            None => return Err(RealityConfigError::InvalidTarget(self.target.clone())),
        };
        if target.port() == 0 {
            return Err(RealityConfigError::TargetPortZero);
        }
        if self.server_names.len() == 0 {
            return Err(RealityConfigError::NoServerNames);
        }
        let server_names = match collect_names(&self.server_names) {
            Ok(names) => names,
            Err(error) => return Err(error),
        };
        let private_key: [u8; 32] = match parse_private_key(&self.private_key) {
            Ok(key) => key,
            Err(error) => return Err(RealityConfigError::PrivateKey(error)),
        };
        if self.short_ids.len() == 0 {
            return Err(RealityConfigError::NoShortIds);
        }
        let short_ids = match collect_short_ids(&self.short_ids) {
            Ok(ids) => ids,
            Err(error) => return Err(error),
        };
        let max_time_diff_secs: Option<u64> = if self.max_time_diff_secs == 0 {
            None
        } else {
            Some(self.max_time_diff_secs)
        };
        Ok(
            RealityServer {
                addr: self.addr.clone(),
                target,
                server_names,
                private_key,
                short_ids,
                max_time_diff_secs,
                handshake_timeout_secs: self.handshake_timeout_secs,
                max_client_hello_size: self.max_client_hello_size,
            },
        )
    }
}

/// A list of names is accepted when every one of them can be a server name, and a list of short ids
/// when every one is a short id; a single bad one spoils the list.
pub proof fn lemma_every_name_and_id_counts(list: Seq<String>)
    ensures
        names_of(list) is Ok <==> forall|i: int|
            0 <= i < list.len() ==> tls::is_sni((#[trigger] list[i])@),
        short_ids_of(list) is Ok <==> forall|i: int|
            0 <= i < list.len() ==> crypto::short_id_of((#[trigger] list[i])@) is Ok,
    decreases list.len(),
{
    if list.len() > 0 {
        let before = list.drop_last();
        lemma_every_name_and_id_counts(before);
        assert forall|i: int| 0 <= i < before.len() implies before[i] == list[i] by {}
        let last = list.len() - 1;
        assert(list[last] == list.last());
        if names_of(list) is Ok {
            assert forall|i: int| 0 <= i < list.len() implies tls::is_sni((#[trigger] list[i])@) by {
                if i < last {
                    assert(tls::is_sni(before[i]@));
                }
            }
        } else if names_of(before) is Err {
            let i = choose|i: int| 0 <= i < before.len() && !tls::is_sni((#[trigger] before[i])@);
            assert(!tls::is_sni(list[i]@));
        }
        if short_ids_of(list) is Ok {
            assert forall|i: int| 0 <= i < list.len() implies crypto::short_id_of(
                (#[trigger] list[i])@,
            ) is Ok by {
                if i < last {
                    assert(crypto::short_id_of(before[i]@) is Ok);
                }
            }
        } else if short_ids_of(before) is Err {
            let i = choose|i: int|
                0 <= i < before.len() && crypto::short_id_of((#[trigger] before[i])@) is Err;
            assert(crypto::short_id_of(list[i]@) is Err);
        }
    }
}

/// Which configurations describe a server: a handshake has time, a ClientHello has from 512 to
/// 65536 bytes of room, the target is an address with a port, there is at least one name and at
/// least one short id, and each of them and the private key can be read. The server is then what
/// the configuration says, and a time difference of zero sets no limit.
pub proof fn lemma_usable_configurations(c: RealityAcceptorConfig, literal: Option<SocketAddr>)
    ensures
        server_of(c, literal) is Ok <==> {
            &&& c.handshake_timeout_secs > 0
            &&& 512 <= c.max_client_hello_size <= 65536
            &&& address::address_of_text(c.target@, literal) matches Some(target)
            &&& target.port() != 0
            &&& c.server_names@.len() > 0 && c.short_ids@.len() > 0
            &&& forall|i: int|
                0 <= i < c.server_names@.len() ==> tls::is_sni((#[trigger] c.server_names@[i])@)
            &&& forall|i: int|
                0 <= i < c.short_ids@.len() ==> crypto::short_id_of((#[trigger] c.short_ids@[i])@)
                    is Ok
            &&& crypto::private_key_of(c.private_key@) is Ok
        },
        server_of(c, literal) matches Ok(s) ==> {
            &&& s.addr == c.addr@
            &&& address::address_of_text(c.target@, literal) == Some(s.target)
            &&& crypto::private_key_of(c.private_key@) == Ok::<_, RealityError>(s.private_key)
            &&& names_of(c.server_names@) == Ok::<_, RealityConfigErrorView>(s.server_names)
            &&& short_ids_of(c.short_ids@) == Ok::<_, RealityConfigErrorView>(s.short_ids)
            &&& s.max_time_diff_secs is None <==> c.max_time_diff_secs == 0
            &&& s.max_time_diff_secs matches Some(d) ==> d == c.max_time_diff_secs
            &&& s.handshake_timeout_secs == c.handshake_timeout_secs
            &&& s.max_client_hello_size == c.max_client_hello_size
        },
{
    lemma_every_name_and_id_counts(c.server_names@);
    lemma_every_name_and_id_counts(c.short_ids@);
}

} // verus!
