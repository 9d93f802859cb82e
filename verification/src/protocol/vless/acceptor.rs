//! Accepting VLESS connections: configuration, users and the reply to a request.

use super::{RequestHeader, VlessError, VERSION};
use crate::text::{self, joined};
use crate::wire::{same, Decoded};
use uuid::Uuid;
use vstd::prelude::*;
use vstd::string::*;
use vstd::utf8::*;

verus! {

pub const DEFAULT_HANDSHAKE_TIMEOUT_SECS: u64 = 10;

pub const DEFAULT_MUX_H2_PROBE_TIMEOUT_SECS: u64 = 1;

/// Handshake timeout of a configuration that names none.
pub fn default_handshake_timeout_secs() -> (r: u64)
    ensures
        r == DEFAULT_HANDSHAKE_TIMEOUT_SECS,
{
    DEFAULT_HANDSHAKE_TIMEOUT_SECS
}

/// Multiplexing is on unless it is switched off.
pub fn default_mux_enabled() -> (r: bool)
    ensures
        r,
{
    true
}

/// Probe timeout of a configuration that names none.
pub fn default_mux_h2_probe_timeout_secs() -> (r: u64)
    ensures
        r == DEFAULT_MUX_H2_PROBE_TIMEOUT_SECS,
{
    DEFAULT_MUX_H2_PROBE_TIMEOUT_SECS
}

/// The `[vless.multiplex]` table.
pub struct VlessMultiplexConfig {
    pub enabled: bool,
    pub h2_probe_timeout_secs: u64,
}

impl Default for VlessMultiplexConfig {
    fn default() -> (r: Self)
        ensures
            r.enabled,
            r.h2_probe_timeout_secs == DEFAULT_MUX_H2_PROBE_TIMEOUT_SECS,
    {
        VlessMultiplexConfig {
            enabled: default_mux_enabled(),
            h2_probe_timeout_secs: default_mux_h2_probe_timeout_secs(),
        }
    }
}

/// The `[vless]` table.
pub struct VlessAcceptorConfig {
    pub users: Vec<String>,
    pub multiplex: Option<VlessMultiplexConfig>,
    pub handshake_timeout_secs: u64,
}

/// Why a VLESS configuration is refused.
#[derive(Debug)]
pub enum VlessConfigError {
    NoUsers,
    ZeroHandshakeTimeout,
    InvalidUuid { user: String, reason: String },
    DuplicateUuid { user: String },
    ZeroProbeTimeout,
}

/// The mathematical content of a `VlessConfigError`.
pub enum VlessConfigErrorView {
    NoUsers,
    ZeroHandshakeTimeout,
    InvalidUuid { user: Seq<char>, reason: Seq<char> },
    DuplicateUuid { user: Seq<char> },
    ZeroProbeTimeout,
}

impl View for VlessConfigError {
    type V = VlessConfigErrorView;

    open spec fn view(&self) -> VlessConfigErrorView {
        match *self {
            VlessConfigError::NoUsers => VlessConfigErrorView::NoUsers,
            VlessConfigError::ZeroHandshakeTimeout => VlessConfigErrorView::ZeroHandshakeTimeout,
            VlessConfigError::InvalidUuid { user, reason } => VlessConfigErrorView::InvalidUuid {
                user: user@,
                reason: reason@,
            },
            VlessConfigError::DuplicateUuid { user } => VlessConfigErrorView::DuplicateUuid {
                user: user@,
            },
            VlessConfigError::ZeroProbeTimeout => VlessConfigErrorView::ZeroProbeTimeout,
        }
    }
}

impl VlessConfigErrorView {
    /// The words of the error.
    pub open spec fn text(self) -> Seq<char> {
        match self {
            VlessConfigErrorView::NoUsers => "vless: at least one VLESS user is required"@,
            VlessConfigErrorView::ZeroHandshakeTimeout => {
                "vless: handshake timeout must be greater than zero"@
            },
            VlessConfigErrorView::InvalidUuid { user, reason } => "vless: invalid user UUID "@
                + user + ": "@ + reason,
            VlessConfigErrorView::DuplicateUuid { user } => "vless: duplicate user UUID "@ + user,
            VlessConfigErrorView::ZeroProbeTimeout => {
                "vless: mux h2 probe timeout must be greater than zero"@
            },
        }
    }
}

impl VlessConfigError {
    /// The words of the error.
    pub fn message(&self) -> (r: String)
        ensures
            r@ == self@.text(),
    {
        match self {
            VlessConfigError::NoUsers => "vless: at least one VLESS user is required".to_string(),
            VlessConfigError::ZeroHandshakeTimeout => {
                "vless: handshake timeout must be greater than zero".to_string()
            },
            VlessConfigError::InvalidUuid { user, reason } => {
                joined(joined("vless: invalid user UUID ".to_string(), user), ": ").concat(
                    reason.as_str(),
                )
            },
            VlessConfigError::DuplicateUuid { user } => joined(
                "vless: duplicate user UUID ".to_string(),
                user,
            ),
            VlessConfigError::ZeroProbeTimeout => {
                "vless: mux h2 probe timeout must be greater than zero".to_string()
            },
        }
    }
}

/// Seconds to wait for each byte of an HTTP/2 preface.
pub open spec fn probe_timeout_of(c: VlessAcceptorConfig) -> Result<u64, VlessConfigErrorView> {
    let secs = match c.multiplex {
        Some(multiplex) => multiplex.h2_probe_timeout_secs,
        None => DEFAULT_MUX_H2_PROBE_TIMEOUT_SECS,
    };
    if secs == 0 {
        Err(VlessConfigErrorView::ZeroProbeTimeout)
    } else {
        Ok(secs)
    }
}

impl VlessAcceptorConfig {
    /// A configuration with these users and defaults for the rest.
    pub fn new(users: Vec<String>) -> (r: Self)
        ensures
            r.users == users,
            r.multiplex is None,
            r.handshake_timeout_secs == DEFAULT_HANDSHAKE_TIMEOUT_SECS,
    {
        VlessAcceptorConfig {
            users,
            multiplex: None,
            handshake_timeout_secs: default_handshake_timeout_secs(),
        }
    }

    /// Whether sing-box multiplexing is served.
    pub fn sing_box_mux_enabled(&self) -> (r: bool)
        ensures
            r == (match self.multiplex {
                Some(multiplex) => multiplex.enabled,
                None => true,
            }),
    {
        match &self.multiplex {
            Some(multiplex) => multiplex.enabled,
            None => true,
        }
    }

    /// Seconds to wait for each byte of an HTTP/2 preface.
    pub fn sing_box_mux_h2_probe_timeout(&self) -> (r: Result<u64, VlessConfigError>)
        ensures
            match r {
                Ok(t) => probe_timeout_of(*self) == Ok::<_, VlessConfigErrorView>(t),
                Err(error) => probe_timeout_of(*self) == Err::<u64, _>(error@),
            },
    {
        let secs: u64 = match &self.multiplex {
            Some(multiplex) => multiplex.h2_probe_timeout_secs,
            None => default_mux_h2_probe_timeout_secs(),
        };
        if secs == 0 {
            return Err(VlessConfigError::ZeroProbeTimeout);
        }
        Ok(secs)
    }
}

/// The 16 bytes that 32 hexadecimal digits stand for.
pub open spec fn id_of_digits(b: Seq<u8>) -> Option<Seq<u8>> {
    if b.len() == 32 && forall|k: int| 0 <= k < 32 ==> (#[trigger] text::hex_digit(b[k])) is Some {
        Some(
            Seq::new(
                16,
                |i: int|
                    (text::hex_digit(b[2 * i])->0 * 16 + text::hex_digit(b[2 * i + 1])->0) as u8,
            ),
        )
    } else {
        None
    }
}

/// The digits of the hyphenated form, five groups of 8, 4, 4, 4 and 12.
pub open spec fn without_hyphens(b: Seq<u8>) -> Seq<u8> {
    b.subrange(0, 8) + b.subrange(9, 13) + b.subrange(14, 18) + b.subrange(19, 23) + b.subrange(
        24,
        36,
    )
}

/// The id of the hyphenated form.
pub open spec fn hyphenated_id(b: Seq<u8>) -> Option<Seq<u8>> {
    if b.len() == 36 && b[8] == 0x2d && b[13] == 0x2d && b[18] == 0x2d && b[23] == 0x2d {
        id_of_digits(without_hyphens(b))
    } else {
        None
    }
}

/// `urn:uuid:` in ASCII.
pub open spec fn urn_prefix() -> Seq<u8> {
    seq![0x75u8, 0x72, 0x6e, 0x3a, 0x75, 0x75, 0x69, 0x64, 0x3a]
}

/// The id that the bytes of a text are in one of the four forms: 32 digits, hyphenated, hyphenated
/// in braces, and hyphenated behind `urn:uuid:`. Letters may be of either case.
pub open spec fn uuid_id(b: Seq<u8>) -> Option<Seq<u8>> {
    if b.len() == 32 {
        id_of_digits(b)
    } else if b.len() == 36 {
        hyphenated_id(b)
    } else if b.len() == 38 && b[0] == 0x7b && b[37] == 0x7d {
        hyphenated_id(b.subrange(1, 37))
    } else if b.len() == 45 && b.subrange(0, 9).map_values(|x: u8| text::lower_byte(x))
        == urn_prefix() {
        hyphenated_id(b.subrange(9, 45))
    } else {
        None
    }
}

/// The words of the error that `uuid::Uuid::parse_str` gives for a text.
pub uninterp spec fn uuid_error(text: Seq<char>) -> Seq<char>;

/// `uuid::Uuid::parse_str`: the id of a text in one of its four forms, and an error for every
/// other text. The words of the error are a function of the text; which they are is left unsaid.
#[verifier::external_body]
fn parse_uuid(text: &str) -> (r: Result<[u8; 16], String>)
    ensures
        match r {
            Ok(id) => uuid_id(encode_utf8(text@)) == Some(id@),
            Err(reason) => uuid_id(encode_utf8(text@)) is None && reason@ == uuid_error(text@),
        },
{
    match Uuid::parse_str(text) {
        Ok(id) => Ok(*id.as_bytes()),
        Err(error) => Err(error.to_string()),
    }
}

/// What a text says as a user: an id, or the words of an error.
pub open spec fn uuid_of(text: Seq<char>) -> Result<Seq<u8>, Seq<char>> {
    match uuid_id(encode_utf8(text)) {
        Some(id) => Ok(id),
        None => Err(uuid_error(text)),
    }
}

/// The four forms of an id stand for the same id.
pub proof fn lemma_uuid_forms_agree(b: Seq<u8>)
    requires
        hyphenated_id(b) is Some,
    ensures
        uuid_id(b) == hyphenated_id(b),
        uuid_id(without_hyphens(b)) == hyphenated_id(b),
        uuid_id(seq![0x7bu8] + b + seq![0x7du8]) == hyphenated_id(b),
        uuid_id(urn_prefix() + b) == hyphenated_id(b),
{
    let braced = seq![0x7bu8] + b + seq![0x7du8];
    assert(braced.subrange(1, 37) =~= b);
    let urn = urn_prefix() + b;
    assert(urn.subrange(9, 45) =~= b);
    assert(urn.subrange(0, 9).map_values(|x: u8| text::lower_byte(x)) =~= urn_prefix());
}

/// Two texts that differ in the case of their letters only stand for the same id.
pub proof fn lemma_uuid_case_does_not_matter(a: Seq<u8>, b: Seq<u8>)
    requires
        a.map_values(|x: u8| text::lower_byte(x)) == b.map_values(|x: u8| text::lower_byte(x)),
    ensures
        uuid_id(a) == uuid_id(b),
{
    let lower = |x: u8| text::lower_byte(x);
    assert(a.len() == a.map_values(lower).len() && b.len() == b.map_values(lower).len());
    assert forall|i: int| 0 <= i < a.len() implies text::lower_byte(#[trigger] a[i])
        == text::lower_byte(b[i]) by {
        assert(a.map_values(lower)[i] == b.map_values(lower)[i]);
    }
    if a.len() == 32 {
        lemma_digits_case(a, b);
    } else if a.len() == 36 {
        lemma_hyphenated_case(a, b);
    } else if a.len() == 38 {
        lemma_hyphenated_case(a.subrange(1, 37), b.subrange(1, 37));
    } else if a.len() == 45 {
        assert(a.subrange(0, 9).map_values(lower) =~= b.subrange(0, 9).map_values(lower));
        lemma_hyphenated_case(a.subrange(9, 45), b.subrange(9, 45));
    }
}

proof fn lemma_hyphenated_case(a: Seq<u8>, b: Seq<u8>)
    requires
        a.len() == 36,
        b.len() == 36,
        forall|i: int|
            0 <= i < 36 ==> text::lower_byte(#[trigger] a[i]) == text::lower_byte(b[i]),
    ensures
        hyphenated_id(a) == hyphenated_id(b),
{
    assert(a[8] == 0x2d <==> b[8] == 0x2d);
    assert(a[13] == 0x2d <==> b[13] == 0x2d);
    assert(a[18] == 0x2d <==> b[18] == 0x2d);
    assert(a[23] == 0x2d <==> b[23] == 0x2d);
    let p = without_hyphens(a);
    let q = without_hyphens(b);
    assert forall|i: int| 0 <= i < 32 implies text::lower_byte(#[trigger] p[i])
        == text::lower_byte(q[i]) by {
        let at = if i < 8 {
            i
        } else if i < 12 {
            i + 1
        } else if i < 16 {
            i + 2
        } else if i < 20 {
            i + 3
        } else {
            i + 4
        };
        assert(p[i] == a[at] && q[i] == b[at]);
    }
    lemma_digits_case(p, q);
}

proof fn lemma_digits_case(a: Seq<u8>, b: Seq<u8>)
    requires
        a.len() == 32,
        b.len() == 32,
        forall|i: int|
            0 <= i < 32 ==> text::lower_byte(#[trigger] a[i]) == text::lower_byte(b[i]),
    ensures
        id_of_digits(a) == id_of_digits(b),
{
    assert forall|i: int| 0 <= i < 32 implies text::hex_digit(#[trigger] a[i]) == text::hex_digit(
        b[i],
    ) by {
        assert(text::lower_byte(a[i]) == text::lower_byte(b[i]));
    }
    if id_of_digits(a) is Some {
        assert forall|k: int| 0 <= k < 32 implies (#[trigger] text::hex_digit(b[k])) is Some by {
            assert(text::hex_digit(a[k]) is Some);
        }
        assert(id_of_digits(a)->0 =~= id_of_digits(b)->0);
    } else {
        let k = choose|k: int| 0 <= k < 32 && (#[trigger] text::hex_digit(a[k])) is None;
        assert(text::hex_digit(b[k]) is None);
    }
}

/// The ids as byte sequences.
pub open spec fn ids(users: Seq<[u8; 16]>) -> Seq<Seq<u8>> {
    users.map_values(|u: [u8; 16]| u@)
}

/// The ids after one more user text, which parsing turned into `parsed`.
pub open spec fn with_user(
    users: Seq<Seq<u8>>,
    user: Seq<char>,
    parsed: Result<Seq<u8>, Seq<char>>,
) -> Result<Seq<Seq<u8>>, VlessConfigErrorView> {
    match parsed {
        Err(reason) => Err(VlessConfigErrorView::InvalidUuid { user, reason }),
        Ok(id) => if users.contains(id) {
            Err(VlessConfigErrorView::DuplicateUuid { user })
        } else {
            Ok(users.push(id))
        },
    }
}

/// The ids of a list of user texts, or why the first bad one is refused.
pub open spec fn users_of(list: Seq<String>) -> Result<Seq<Seq<u8>>, VlessConfigErrorView>
    decreases list.len(),
{
    if list.len() == 0 {
        Ok(Seq::empty())
    } else {
        match users_of(list.drop_last()) {
            Err(error) => Err(error),
            Ok(users) => with_user(users, list.last()@, uuid_of(list.last()@)),
        }
    }
}

/// The users of a configuration, or why it is refused.
pub open spec fn configured_users(config: VlessAcceptorConfig) -> Result<
    Seq<Seq<u8>>,
    VlessConfigErrorView,
> {
    if config.users@.len() == 0 {
        Err(VlessConfigErrorView::NoUsers)
    } else if config.handshake_timeout_secs == 0 {
        Err(VlessConfigErrorView::ZeroHandshakeTimeout)
    } else {
        users_of(config.users@)
    }
}

proof fn lemma_error_stays(list: Seq<String>, n: int)
    requires
        0 <= n <= list.len(),
        users_of(list.subrange(0, n)) is Err,
    ensures
        users_of(list) == users_of(list.subrange(0, n)),
    decreases list.len() - n,
{
    if n == list.len() {
        assert(list.subrange(0, n) =~= list);
    } else {
        assert(list.subrange(0, n + 1).drop_last() =~= list.subrange(0, n));
        lemma_error_stays(list, n + 1);
    }
}

/// An accepted list of users has one id per text, and no id twice.
pub proof fn lemma_users_distinct(list: Seq<String>)
    requires
        users_of(list) is Ok,
    ensures
        users_of(list)->Ok_0.len() == list.len(),
        users_of(list)->Ok_0.no_duplicates(),
    decreases list.len(),
{
    if list.len() > 0 {
        lemma_users_distinct(list.drop_last());
    }
}

/// Adds the id that a user text was parsed to, unless it is there already.
pub fn add_user(
    valid_users: &mut Vec<[u8; 16]>,
    user: &str,
    parsed: Result<[u8; 16], String>,
) -> (r: Result<(), VlessConfigError>)
    ensures
        ({
            let outcome = with_user(
                ids(old(valid_users)@),
                user@,
                match parsed {
                    Ok(id) => Ok(id@),
                    Err(reason) => Err(reason@),
                },
            );
            match r {
                Ok(()) => outcome == Ok::<_, VlessConfigErrorView>(ids(final(valid_users)@)),
                Err(error) => outcome == Err::<Seq<Seq<u8>>, _>(error@) && final(valid_users)@
                    == old(valid_users)@,
            }
        }),
{
    let ghost all = ids(valid_users@);
    let id: [u8; 16] = match parsed {
        Ok(id) => id,
        Err(reason) => return Err(
            VlessConfigError::InvalidUuid { user: user.to_owned(), reason },
        ),
    };
    for k in 0..valid_users.len()
        invariant
            valid_users@ == old(valid_users)@,
            all == ids(valid_users@),
            parsed == Ok::<_, String>(id),
            forall|j: int| 0 <= j < k ==> #[trigger] all[j] != id@,
    {
        assert(all[k as int] == valid_users@[k as int]@);
        if same(&valid_users[k], &id) {
            assert(all.contains(id@));
            return Err(VlessConfigError::DuplicateUuid { user: user.to_owned() });
        }
    }
    assert(!all.contains(id@));
    valid_users.push(id);
    assert(ids(valid_users@) =~= all.push(id@));
    Ok(())
}

/// What accepts VLESS connections on top of `inner`.
pub struct VlessAcceptor<T> {
    pub valid_users: Vec<[u8; 16]>,
    pub handshake_timeout_secs: u64,
    pub inner: T,
}

impl<T> VlessAcceptor<T> {
    /// An acceptor for the users of a configuration.
    pub fn new(config: &VlessAcceptorConfig, inner: T) -> (r: Result<Self, VlessConfigError>)
        ensures
            match r {
                Ok(acceptor) => {
                    &&& configured_users(*config) == Ok::<_, VlessConfigErrorView>(
                        ids(acceptor.valid_users@),
                    )
                    &&& acceptor.handshake_timeout_secs == config.handshake_timeout_secs
                    &&& acceptor.inner == inner
                },
                Err(error) => configured_users(*config) == Err::<Seq<Seq<u8>>, _>(error@),
            },
    {
        if config.users.len() == 0 {
            return Err(VlessConfigError::NoUsers);
        }
        if config.handshake_timeout_secs == 0 {
            return Err(VlessConfigError::ZeroHandshakeTimeout);
        }
        let ghost list = config.users@;
        let mut valid_users: Vec<[u8; 16]> = Vec::new();
        assert(ids(valid_users@) =~= Seq::empty());
        for i in 0..config.users.len()
            invariant
                list == config.users@,
                list.len() > 0,
                config.handshake_timeout_secs != 0,
                users_of(list.subrange(0, i as int)) == Ok::<_, VlessConfigErrorView>(
                    ids(valid_users@),
                ),
        {
            let ghost next = list.subrange(0, i + 1);
            assert(next.drop_last() =~= list.subrange(0, i as int));
            assert(next.last() == list[i as int]);
            let user = config.users[i].as_str();
            match add_user(&mut valid_users, user, parse_uuid(user)) {
                Ok(()) => {},
                Err(error) => {
                    proof {
                        lemma_error_stays(list, i + 1);
                    }
                    return Err(error);
                },
            }
        }
        assert(list.subrange(0, list.len() as int) =~= list);
        Ok(
            VlessAcceptor {
                valid_users,
                handshake_timeout_secs: config.handshake_timeout_secs,
                inner,
            },
        )
    }

    /// What the bytes received so far say as a request.
    pub fn read_request(&self, received: &[u8]) -> (r: Decoded<RequestHeader, VlessError>)
        ensures
            r.progress() == super::vless_request(received@, self.valid_users@),
    {
        RequestHeader::read_from(received, self.valid_users.as_slice())
    }
}

/// The reply to an accepted request: the version, and no addons.
pub fn response_header() -> (r: [u8; 2])
    ensures
        r@ == seq![VERSION, 0u8],
{
    let r: [u8; 2] = [VERSION, 0];
    assert(r@ =~= seq![VERSION, 0u8]);
    r
}

/// The probe waits as long as is configured, one second where nothing is, and never no time at all.
pub proof fn lemma_probe_timeouts(c: VlessAcceptorConfig)
    ensures
        c.multiplex is None ==> probe_timeout_of(c) == Ok::<_, VlessConfigErrorView>(1u64),
        c.multiplex matches Some(m) ==> {
            &&& probe_timeout_of(c) == Ok::<_, VlessConfigErrorView>(m.h2_probe_timeout_secs) <==> m
                .h2_probe_timeout_secs >= 1
            &&& m.h2_probe_timeout_secs == 0 ==> probe_timeout_of(c) == Err::<u64, _>(
                VlessConfigErrorView::ZeroProbeTimeout,
            )
        },
{
}

/// An id is written as its 16 bytes in hexadecimal, with or without hyphens behind the digits 8, 12,
/// 16 and 20, and read back from both.
pub proof fn lemma_written_ids_are_read(id: Seq<u8>)
    requires
        id.len() == 16,
    ensures
        ({
            let digits = encode_utf8(text::hex_text(id));
            let hyphen = seq![45u8];
            &&& uuid_id(digits) == Some(id)
            &&& uuid_id(
                digits.subrange(0, 8) + hyphen + digits.subrange(8, 12) + hyphen + digits.subrange(
                    12,
                    16,
                ) + hyphen + digits.subrange(16, 20) + hyphen + digits.subrange(20, 32),
            ) == Some(id)
        }),
{
    let digits = encode_utf8(text::hex_text(id));
    lemma_digits_are_read(id);
    lemma_hyphens_are_left_out(digits);
}

proof fn lemma_digits_are_read(id: Seq<u8>)
    requires
        id.len() == 16,
    ensures
        encode_utf8(text::hex_text(id)).len() == 32,
        id_of_digits(encode_utf8(text::hex_text(id))) == Some(id),
{
    let chars = text::hex_text(id);
    assert forall|i: int| 0 <= i < chars.len() implies 0 <= #[trigger] chars[i] as int <= 127 by {}
    is_ascii_chars_encode_utf8(chars);
    let digits = encode_utf8(chars);
    assert forall|i: int| 0 <= i < 16 implies #[trigger] id_byte(digits, i) == Some(id[i] as int) by {
        text::lemma_hex_text_reads_back(id, i);
        assert(digits[2 * i] == chars[2 * i] as u8);
        assert(digits[2 * i + 1] == chars[2 * i + 1] as u8);
    }
    assert forall|k: int| 0 <= k < 32 implies (#[trigger] text::hex_digit(digits[k])) is Some by {
        assert(id_byte(digits, k / 2) is Some);
        assert(k == 2 * (k / 2) || k == 2 * (k / 2) + 1);
    }
    let read = id_of_digits(digits)->0;
    assert forall|i: int| 0 <= i < 16 implies read[i] == id[i] by {
        assert(id_byte(digits, i) == Some(id[i] as int));
    }
    assert(read =~= id);
}

/// The byte that the digits `2 * i` and `2 * i + 1` stand for.
spec fn id_byte(digits: Seq<u8>, i: int) -> Option<int> {
    match (text::hex_digit(digits[2 * i]), text::hex_digit(digits[2 * i + 1])) {
        (Some(high), Some(low)) => Some(high * 16 + low),
        _ => None,
    }
}

proof fn lemma_hyphens_are_left_out(digits: Seq<u8>)
    requires
        digits.len() == 32,
    ensures
        ({
            let hyphen = seq![45u8];
            hyphenated_id(
                digits.subrange(0, 8) + hyphen + digits.subrange(8, 12) + hyphen + digits.subrange(
                    12,
                    16,
                ) + hyphen + digits.subrange(16, 20) + hyphen + digits.subrange(20, 32),
            ) == id_of_digits(digits)
        }),
{
    let hyphen = seq![45u8];
    let b = digits.subrange(0, 8) + hyphen + digits.subrange(8, 12) + hyphen + digits.subrange(
        12,
        16,
    ) + hyphen + digits.subrange(16, 20) + hyphen + digits.subrange(20, 32);
    assert(b.len() == 36);
    assert(b[8] == 45 && b[13] == 45 && b[18] == 45 && b[23] == 45);
    assert(without_hyphens(b) =~= digits);
}

/// The users of a configuration are the ids that its texts stand for, in order. It is accepted
/// exactly when there is a text, every text stands for an id, no id comes twice, and the timeout is
/// not zero.
pub proof fn lemma_every_text_is_a_user(config: VlessAcceptorConfig, i: int)
    ensures
        configured_users(config) is Ok <==> {
            &&& config.users@.len() > 0
            &&& config.handshake_timeout_secs >= 1
            &&& forall|k: int|
                0 <= k < config.users@.len() ==> uuid_id(encode_utf8((#[trigger] config.users@[k])@))
                    is Some
            &&& forall|j: int, k: int|
                0 <= j < k < config.users@.len() ==> uuid_id(
                    encode_utf8((#[trigger] config.users@[j])@),
                ) != uuid_id(encode_utf8((#[trigger] config.users@[k])@))
        },
        configured_users(config) is Ok && 0 <= i < config.users@.len() ==> Some(
            configured_users(config)->Ok_0[i],
        ) == uuid_id(encode_utf8(config.users@[i]@)),
        config.users@.len() == 0 ==> configured_users(config) == Err::<Seq<Seq<u8>>, _>(
            VlessConfigErrorView::NoUsers,
        ),
        config.users@.len() > 0 && config.handshake_timeout_secs == 0 ==> configured_users(config)
            == Err::<Seq<Seq<u8>>, _>(VlessConfigErrorView::ZeroHandshakeTimeout),
{
    reveal(text_id);
    lemma_users_one_by_one(config.users@);
    let list = config.users@;
    if are_distinct_ids(list) {
        assert forall|k: int| 0 <= k < list.len() implies uuid_id(
            encode_utf8((#[trigger] list[k])@),
        ) is Some by {
            assert(text_id(list[k]@) is Some);
        }
        assert forall|j: int, k: int| 0 <= j < k < list.len() implies uuid_id(
            encode_utf8((#[trigger] list[j])@),
        ) != uuid_id(encode_utf8((#[trigger] list[k])@)) by {
            assert(text_id(list[j]@) != text_id(list[k]@));
        }
    }
    if users_of(list) is Ok && 0 <= i < list.len() {
        assert(text_id(list[i]@) == Some(users_of(list)->Ok_0[i]));
    }
}

/// The id that a text stands for.
#[verifier::opaque]
spec fn text_id(text: Seq<char>) -> Option<Seq<u8>> {
    uuid_id(encode_utf8(text))
}

/// Whether every text of a list stands for an id, and no two for the same.
spec fn are_distinct_ids(list: Seq<String>) -> bool {
    &&& forall|k: int| 0 <= k < list.len() ==> (#[trigger] text_id(list[k]@)) is Some
    &&& forall|j: int, k: int|
        0 <= j < k < list.len() ==> #[trigger] text_id(list[j]@) != #[trigger] text_id(list[k]@)
}

proof fn lemma_one_more_user(list: Seq<String>)
    requires
        list.len() > 0,
        users_of(list.drop_last()) is Ok,
    ensures
        match text_id(list.last()@) {
            Some(id) => if users_of(list.drop_last())->Ok_0.contains(id) {
                users_of(list) is Err
            } else {
                users_of(list) == Ok::<_, VlessConfigErrorView>(
                    users_of(list.drop_last())->Ok_0.push(id),
                )
            },
            None => users_of(list) is Err,
        },
{
    reveal(text_id);
}

proof fn lemma_users_one_by_one(list: Seq<String>)
    ensures
        users_of(list) is Ok <==> are_distinct_ids(list),
        users_of(list) is Ok ==> users_of(list)->Ok_0.len() == list.len() && forall|k: int|
            0 <= k < list.len() ==> #[trigger] text_id(list[k]@) == Some(users_of(list)->Ok_0[k]),
    decreases list.len(),
{
    if list.len() > 0 {
        let before = list.drop_last();
        let n = list.len() - 1;
        lemma_users_one_by_one(before);
        assert(list[n] == list.last());
        assert forall|k: int| 0 <= k < n implies before[k] == list[k] by {}
        if are_distinct_ids(list) {
            assert forall|k: int| 0 <= k < n implies (#[trigger] text_id(before[k]@)) is Some by {
                assert(text_id(list[k]@) is Some);
            }
            assert forall|j: int, k: int| 0 <= j < k < n implies #[trigger] text_id(before[j]@)
                != #[trigger] text_id(before[k]@) by {
                assert(text_id(list[j]@) != text_id(list[k]@));
            }
            assert(are_distinct_ids(before));
        }
        if users_of(before) is Ok {
            lemma_one_more_user(list);
            let users = users_of(before)->Ok_0;
            assert forall|j: int| 0 <= j < n implies text_id(list[j]@) == Some(
                #[trigger] users[j],
            ) by {
                assert(text_id(before[j]@) == Some(users[j]));
            }
            if let Some(id) = text_id(list[n]@) {
                if users.contains(id) {
                    let j = choose|j: int| 0 <= j < users.len() && users[j] == id;
                    assert(text_id(list[j]@) == text_id(list[n]@));
                } else {
                    assert forall|j: int| 0 <= j < n implies text_id(list[j]@) != Some(id) by {
                        assert(users.contains(users[j]));
                    }
                    let all = users.push(id);
                    assert forall|k: int| 0 <= k < list.len() implies #[trigger] text_id(list[k]@)
                        == Some(all[k]) by {
                        if k < n {
                            assert(text_id(list[k]@) == Some(users[k]));
                        }
                    }
                    assert forall|j: int, k: int| 0 <= j < k < list.len() implies #[trigger] text_id(
                        list[j]@,
                    ) != #[trigger] text_id(list[k]@) by {
                        if k < n {
                            assert(text_id(before[j]@) != text_id(before[k]@));
                        }
                    }
                    assert(are_distinct_ids(list));
                }
            } else {
                assert(text_id(list[n]@) is None);
            }
        }
    }
}

/// The first text that stands for no id, or for one that came before, is named in the error.
pub proof fn lemma_first_bad_user_is_named(list: Seq<String>, n: int)
    requires
        0 <= n < list.len(),
        users_of(list.subrange(0, n)) is Ok,
    ensures
        uuid_id(encode_utf8(list[n]@)) is None ==> users_of(list) == Err::<Seq<Seq<u8>>, _>(
            VlessConfigErrorView::InvalidUuid { user: list[n]@, reason: uuid_error(list[n]@) },
        ),
        (exists|j: int|
            0 <= j < n && uuid_id(encode_utf8((#[trigger] list[j])@)) == uuid_id(
                encode_utf8(list[n]@),
            )) ==> users_of(list) == Err::<Seq<Seq<u8>>, _>(
            VlessConfigErrorView::DuplicateUuid { user: list[n]@ },
        ),
{
    let before = list.subrange(0, n);
    let next = list.subrange(0, n + 1);
    assert(next.drop_last() =~= before);
    assert(next.last() == list[n]);
    lemma_users_one_by_one(before);
    reveal(text_id);
    if exists|j: int|
        0 <= j < n && uuid_id(encode_utf8((#[trigger] list[j])@)) == uuid_id(
            encode_utf8(list[n]@),
        ) {
        let j = choose|j: int|
            0 <= j < n && uuid_id(encode_utf8((#[trigger] list[j])@)) == uuid_id(
                encode_utf8(list[n]@),
            );
        assert(before[j] == list[j]);
        let users = users_of(before)->Ok_0;
        assert(text_id(before[j]@) == Some(users[j]));
        assert(users.contains(users[j]));
    }
    if users_of(next) is Err {
        lemma_error_stays(list, n + 1);
    }
}

/// A text that stands for an id is in one of the four forms: of 32 bytes, of 36 with four hyphens,
/// or of 36 with both braces around them or behind `urn:uuid:`; all else in it are hexadecimal
/// digits.
pub proof fn lemma_other_texts_are_no_ids(b: Seq<u8>, k: int)
    ensures
        uuid_id(b) is Some ==> b.len() == 32 || b.len() == 36 || b.len() == 38 || b.len() == 45,
        uuid_id(b) is Some && b.len() == 36 ==> b[8] == 45 && b[13] == 45 && b[18] == 45 && b[23]
            == 45,
        uuid_id(b) is Some && b.len() == 38 ==> b[0] == 123 && b[37] == 125 && uuid_id(
            b.subrange(1, 37),
        ) == uuid_id(b),
        uuid_id(b) is Some && b.len() == 45 ==> b.subrange(0, 9).map_values(
            |x: u8| text::lower_byte(x),
        ) == encode_utf8("urn:uuid:"@) && uuid_id(b.subrange(9, 45)) == uuid_id(b),
        uuid_id(b) is Some && b.len() == 32 && 0 <= k < 32 ==> text::hex_digit(b[k]) is Some,
        uuid_id(b) is Some && b.len() == 36 && 0 <= k < 36 && k != 8 && k != 13 && k != 18 && k
            != 23 ==> text::hex_digit(b[k]) is Some,
{
    let chars = "urn:uuid:"@;
    reveal_strlit("urn:uuid:");
    assert forall|i: int| 0 <= i < chars.len() implies 0 <= #[trigger] chars[i] as int <= 127 by {}
    is_ascii_chars_encode_utf8(chars);
    let bytes = encode_utf8(chars);
    assert forall|i: int| 0 <= i < 9 implies urn_prefix()[i] == bytes[i] by {
        assert(bytes[i] == chars[i] as u8);
    }
    assert(urn_prefix() =~= bytes);
    if uuid_id(b) is Some && b.len() == 36 && 0 <= k < 36 && k != 8 && k != 13 && k != 18 && k != 23 {
        let digits = without_hyphens(b);
        let at = if k < 8 {
            k
        } else if k < 13 {
            k - 1
        } else if k < 18 {
            k - 2
        } else if k < 23 {
            k - 3
        } else {
            k - 4
        };
        assert(digits[at] == b[k]);
        assert(text::hex_digit(digits[at]) is Some);
    }
}

} // verus!
