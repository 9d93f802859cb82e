//! The fields of a TLS ClientHello that REALITY looks at.
//!
//! The input is the handshake message (`type || u24 length || body`), which is also what the
//! client authenticates. Every length is checked before a byte behind it is read.

use super::RealityError;
use crate::text::{self, to_ascii_lowercase, utf8_text};
use crate::wire::{self, array_at, get_u16, get_u24};
use vstd::prelude::*;
use vstd::slice::*;
use vstd::utf8::*;

verus! {

/// `handshake(22)` TLS record content type.
pub const RECORD_TYPE_HANDSHAKE: u8 = 0x16;

/// `client_hello(1)` handshake message type.
pub const HANDSHAKE_TYPE_CLIENT_HELLO: u8 = 0x01;

pub const EXT_SERVER_NAME: u16 = 0x0000;

pub const EXT_SUPPORTED_VERSIONS: u16 = 0x002b;

pub const EXT_KEY_SHARE: u16 = 0x0033;

pub const GROUP_X25519: u16 = 0x001d;

pub const GROUP_X25519MLKEM768: u16 = 0x11ec;

/// Length of an X25519 public key.
pub const X25519_KEY_LEN: usize = 32;

/// Length of the ML-KEM-768 part in front of the X25519 key of a hybrid share.
pub const MLKEM768_ENCAP_LEN: usize = 1184;

pub const TLS13_VERSION: u16 = 0x0304;

/// The REALITY-relevant fields of a ClientHello.
pub struct ParsedClientHello {
    /// Client random.
    pub random: [u8; 32],
    /// Server name in lower case; empty when absent.
    pub server_name: String,
    /// X25519 public key, when one is offered (plain or hybrid).
    pub key_share_x25519: Option<[u8; 32]>,
    /// Whether TLS 1.3 is among the supported versions.
    pub offers_tls13: bool,
    /// Offset of the session id in the handshake message.
    pub session_id_offset: usize,
    /// The session id when it has 32 bytes; zeros otherwise.
    pub session_id: [u8; 32],
}

/// The mathematical content of a `ParsedClientHello`.
pub struct ClientHelloView {
    pub random: Seq<u8>,
    pub server_name: Seq<char>,
    pub key_share_x25519: Option<Seq<u8>>,
    pub offers_tls13: bool,
    pub session_id_offset: int,
    pub session_id: Seq<u8>,
}

/// The bytes of an optional key.
pub open spec fn key_view(key: Option<[u8; 32]>) -> Option<Seq<u8>> {
    match key {
        Some(k) => Some(k@),
        None => None,
    }
}

impl View for ParsedClientHello {
    type V = ClientHelloView;

    open spec fn view(&self) -> ClientHelloView {
        ClientHelloView {
            random: self.random@,
            server_name: self.server_name@,
            key_share_x25519: key_view(self.key_share_x25519),
            offers_tls13: self.offers_tls13,
            session_id_offset: self.session_id_offset as int,
            session_id: self.session_id@,
        }
    }
}

/// One extension: its type and its data.
pub struct Extension {
    pub kind: int,
    pub data: Seq<u8>,
}

/// The extensions that `s` is made of, one after the other; `None` when the last is cut short.
pub open spec fn extensions(s: Seq<u8>) -> Option<Seq<Extension>>
    decreases s.len(),
{
    if s.len() == 0 {
        Some(Seq::empty())
    } else if s.len() < 4 || s.len() < 4 + wire::u16_at(s, 2) {
        None
    } else {
        let end = 4 + wire::u16_at(s, 2);
        let first = Extension { kind: wire::u16_at(s, 0), data: s.subrange(4, end) };
        match extensions(wire::after(s, end)) {
            Some(rest) => Some(seq![first] + rest),
            None => None,
        }
    }
}

/// The first name of type `host_name(0)` in a list of server names.
pub open spec fn first_host_name(s: Seq<u8>) -> Option<Seq<u8>>
    decreases s.len(),
{
    if s.len() < 3 || s.len() < 3 + wire::u16_at(s, 1) {
        None
    } else if s[0] == 0 {
        Some(s.subrange(3, 3 + wire::u16_at(s, 1)))
    } else {
        first_host_name(wire::after(s, 3 + wire::u16_at(s, 1)))
    }
}

/// The host name in the data of a server_name extension.
pub open spec fn host_name(data: Seq<u8>) -> Option<Seq<char>> {
    if data.len() >= 2 && wire::u16_at(data, 0) == data.len() - 2 {
        match first_host_name(wire::after(data, 2)) {
            Some(name) => if valid_utf8(name) {
                Some(text::lowercase(decode_utf8(name)))
            } else {
                None
            },
            None => None,
        }
    } else {
        None
    }
}

/// Whether the data of a supported_versions extension lists TLS 1.3.
pub open spec fn lists_tls13(data: Seq<u8>) -> bool {
    &&& data.len() >= 1
    &&& data[0] == data.len() - 1
    &&& exists|k: int|
        0 <= k && 2 * k + 2 < data.len() && #[trigger] wire::u16_at(data, 1 + 2 * k) == TLS13_VERSION
}

/// The first X25519 key in a list of key shares.
pub open spec fn first_x25519(s: Seq<u8>) -> Option<Seq<u8>>
    decreases s.len(),
{
    if s.len() < 4 || s.len() < 4 + wire::u16_at(s, 2) {
        None
    } else {
        let group = wire::u16_at(s, 0);
        let len = wire::u16_at(s, 2);
        if group == GROUP_X25519 && len == X25519_KEY_LEN {
            Some(s.subrange(4, 36))
        } else if group == GROUP_X25519MLKEM768 && len == MLKEM768_ENCAP_LEN + X25519_KEY_LEN {
            Some(s.subrange(4 + MLKEM768_ENCAP_LEN, 36 + MLKEM768_ENCAP_LEN))
        } else {
            first_x25519(wire::after(s, 4 + len))
        }
    }
}

/// The X25519 key in the data of a key_share extension.
pub open spec fn x25519_share(data: Seq<u8>) -> Option<Seq<u8>> {
    if data.len() >= 2 && wire::u16_at(data, 0) == data.len() - 2 {
        first_x25519(wire::after(data, 2))
    } else {
        None
    }
}

/// The name in the last server_name extension that holds one; empty without.
pub open spec fn server_name_of(list: Seq<Extension>) -> Seq<char>
    decreases list.len(),
{
    if list.len() == 0 {
        Seq::empty()
    } else if list.last().kind == EXT_SERVER_NAME && host_name(list.last().data) is Some {
        host_name(list.last().data)->0
    } else {
        server_name_of(list.drop_last())
    }
}

/// Whether the last supported_versions extension lists TLS 1.3.
pub open spec fn offers_tls13_of(list: Seq<Extension>) -> bool
    decreases list.len(),
{
    if list.len() == 0 {
        false
    } else if list.last().kind == EXT_SUPPORTED_VERSIONS {
        lists_tls13(list.last().data)
    } else {
        offers_tls13_of(list.drop_last())
    }
}

/// The X25519 key in the last key_share extension.
pub open spec fn key_share_of(list: Seq<Extension>) -> Option<Seq<u8>>
    decreases list.len(),
{
    if list.len() == 0 {
        None
    } else if list.last().kind == EXT_KEY_SHARE {
        x25519_share(list.last().data)
    } else {
        key_share_of(list.drop_last())
    }
}

/// Where the cipher suites start, their length field first.
pub open spec fn ciphers_at(m: Seq<u8>) -> int {
    39 + m[38]
}

/// Where the compression methods start, their length field first.
pub open spec fn compression_at(m: Seq<u8>) -> int {
    ciphers_at(m) + 2 + wire::u16_at(m, ciphers_at(m))
}

/// Where the fixed part of the body ends.
pub open spec fn extensions_at(m: Seq<u8>) -> int {
    compression_at(m) + 1 + m[compression_at(m)]
}

/// Whether the fixed part of the body fits in the message.
pub open spec fn has_fixed_part(m: Seq<u8>) -> bool {
    &&& m.len() >= 39
    &&& m.len() >= ciphers_at(m) + 2
    &&& m.len() >= compression_at(m) + 1
    &&& m.len() >= extensions_at(m)
}

/// The fields of a message with the given extensions.
pub open spec fn fields(m: Seq<u8>, list: Seq<Extension>) -> ClientHelloView {
    ClientHelloView {
        random: m.subrange(6, 38),
        server_name: server_name_of(list),
        key_share_x25519: key_share_of(list),
        offers_tls13: offers_tls13_of(list),
        session_id_offset: 39,
        session_id: if m[38] == 32 {
            m.subrange(39, 71)
        } else {
            wire::repeated(0, 32)
        },
    }
}

/// What a ClientHello handshake message says.
pub open spec fn client_hello(m: Seq<u8>) -> Result<ClientHelloView, RealityError> {
    if m.len() < 1 {
        Err(RealityError::HelloTruncated)
    } else if m[0] != HANDSHAKE_TYPE_CLIENT_HELLO {
        Err(RealityError::NotClientHello)
    } else if m.len() < 4 {
        Err(RealityError::HelloTruncated)
    } else if m.len() - 4 != wire::u24_at(m, 1) {
        Err(RealityError::HelloLengthMismatch)
    } else if !has_fixed_part(m) {
        Err(RealityError::HelloTruncated)
    } else if m.len() == extensions_at(m) {
        Ok(fields(m, Seq::empty()))
    } else if m.len() < extensions_at(m) + 2 {
        Err(RealityError::HelloTruncated)
    } else if m.len() - extensions_at(m) - 2 != wire::u16_at(m, extensions_at(m)) {
        Err(RealityError::ExtensionsLengthMismatch)
    } else {
        match extensions(wire::after(m, extensions_at(m) + 2)) {
            Some(list) => Ok(fields(m, list)),
            None => Err(RealityError::HelloTruncated),
        }
    }
}

/// The session id of an accepted message is the 32 bytes at its offset, when it has 32 bytes.
pub proof fn lemma_session_id_in_place(m: Seq<u8>)
    requires
        client_hello(m) is Ok,
        m[38] == 32,
    ensures
        client_hello(m)->Ok_0.session_id_offset + 32 <= m.len(),
        client_hello(m)->Ok_0.session_id == m.subrange(
            client_hello(m)->Ok_0.session_id_offset,
            client_hello(m)->Ok_0.session_id_offset + 32,
        ),
{
}

/// A cursor over bytes.
struct Reader<'a> {
    data: &'a [u8],
    pos: usize,
}

impl<'a> Reader<'a> {
    spec fn inv(&self) -> bool {
        self.pos <= self.data@.len()
    }

    /// The bytes that have not been taken.
    spec fn left(&self) -> Seq<u8> {
        wire::after(self.data@, self.pos as int)
    }

    fn new(data: &'a [u8]) -> (r: Self)
        ensures
            r.inv(),
            r.data == data,
            r.pos == 0,
            r.left() == data@,
    {
        let r = Self { data, pos: 0 };
        assert(r.left() =~= data@);
        r
    }

    fn remaining(&self) -> (r: usize)
        requires
            self.inv(),
        ensures
            r == self.left().len(),
            r == self.data@.len() - self.pos,
    {
        self.data.len() - self.pos
    }

    fn take(&mut self, len: usize) -> (r: Option<&'a [u8]>)
        requires
            old(self).inv(),
        ensures
            final(self).inv(),
            final(self).data == old(self).data,
            match r {
                Some(part) => {
                    &&& len <= old(self).left().len()
                    &&& part@ == old(self).left().subrange(0, len as int)
                    &&& part@ == old(self).data@.subrange(
                        old(self).pos as int,
                        old(self).pos + len,
                    )
                    &&& final(self).pos == old(self).pos + len
                    &&& final(self).left() == wire::after(old(self).left(), len as int)
                },
                None => len > old(self).left().len() && final(self).pos == old(self).pos,
            },
    {
        if self.data.len() - self.pos < len {
            return None;
        }
        let part = slice_subrange(self.data, self.pos, self.pos + len);
        let ghost before = self.left();
        assert(part@ =~= before.subrange(0, len as int));
        self.pos = self.pos + len;
        assert(self.left() =~= wire::after(before, len as int));
        Some(part)
    }

    fn u8(&mut self) -> (r: Option<u8>)
        requires
            old(self).inv(),
        ensures
            final(self).inv(),
            final(self).data == old(self).data,
            match r {
                Some(b) => {
                    &&& 1 <= old(self).left().len()
                    &&& b == old(self).left()[0]
                    &&& b == old(self).data@[old(self).pos as int]
                    &&& final(self).pos == old(self).pos + 1
                    &&& final(self).left() == wire::after(old(self).left(), 1)
                },
                None => 1 > old(self).left().len() && final(self).pos == old(self).pos,
            },
    {
        match self.take(1) {
            Some(part) => Some(part[0]),
            None => None,
        }
    }

    fn u16(&mut self) -> (r: Option<u16>)
        requires
            old(self).inv(),
        ensures
            final(self).inv(),
            final(self).data == old(self).data,
            match r {
                Some(n) => {
                    &&& 2 <= old(self).left().len()
                    &&& n == wire::u16_at(old(self).left(), 0)
                    &&& n == wire::u16_at(old(self).data@, old(self).pos as int)
                    &&& final(self).pos == old(self).pos + 2
                    &&& final(self).left() == wire::after(old(self).left(), 2)
                },
                None => 2 > old(self).left().len() && final(self).pos == old(self).pos,
            },
    {
        match self.take(2) {
            Some(part) => Some(get_u16(part, 0)),
            None => None,
        }
    }
}

/// The host name in the data of a server_name extension, in lower case.
pub fn parse_sni(ext_data: &[u8]) -> (r: Option<String>)
    ensures
        match r {
            Some(name) => host_name(ext_data@) == Some(name@),
            None => host_name(ext_data@) is None,
        },
{
    let mut reader = Reader::new(ext_data);
    let list_len: usize = match reader.u16() {
        Some(n) => n as usize,
        None => return None,
    };
    if reader.remaining() != list_len {
        return None;
    }
    let ghost all = reader.left();
    assert(all == wire::after(ext_data@, 2));
    while reader.remaining() > 0
        invariant
            reader.inv(),
            all == wire::after(ext_data@, 2),
            ext_data@.len() >= 2,
            wire::u16_at(ext_data@, 0) == ext_data@.len() - 2,
            first_host_name(reader.left()) == first_host_name(all),
        decreases reader.left().len(),
    {
        let ghost here = reader.left();
        let name_type: u8 = match reader.u8() {
            Some(b) => b,
            None => return None,
        };
        let name_len: usize = match reader.u16() {
            Some(n) => n as usize,
            None => return None,
        };
        assert(wire::u16_at(wire::after(here, 1), 0) == wire::u16_at(here, 1));
        let name = match reader.take(name_len) {
            Some(part) => part,
            None => return None,
        };
        assert(name@ =~= here.subrange(3, 3 + name_len));
        assert(reader.left() =~= wire::after(here, 3 + name_len));
        if name_type == 0 {
            return match utf8_text(name) {
                Some(text) => Some(to_ascii_lowercase(text)),
                None => None,
            };
        }
    }
    None
}

/// Whether the data of a supported_versions extension lists TLS 1.3.
pub fn parse_supported_versions(ext_data: &[u8]) -> (r: bool)
    ensures
        r == lists_tls13(ext_data@),
{
    let mut reader = Reader::new(ext_data);
    let list_len: usize = match reader.u8() {
        Some(b) => b as usize,
        None => return false,
    };
    if reader.remaining() != list_len {
        return false;
    }
    let ghost mut k: int = 0;
    while reader.remaining() >= 2
        invariant
            reader.inv(),
            reader.data == ext_data,
            k >= 0,
            reader.pos == 1 + 2 * k,
            ext_data@.len() >= 1,
            ext_data@[0] == ext_data@.len() - 1,
            forall|j: int|
                0 <= j < k ==> #[trigger] wire::u16_at(ext_data@, 1 + 2 * j) != TLS13_VERSION,
        decreases reader.left().len(),
    {
        match reader.u16() {
            Some(version) => {
                assert(version == wire::u16_at(ext_data@, 1 + 2 * k));
                if version == TLS13_VERSION {
                    return true;
                }
            },
            None => {
                return false;
            },
        }
        proof {
            k = k + 1;
        }
    }
    false
}

/// The X25519 key in the data of a key_share extension.
pub fn parse_key_share(ext_data: &[u8]) -> (r: Option<[u8; 32]>)
    ensures
        key_view(r) == x25519_share(ext_data@),
{
    let mut reader = Reader::new(ext_data);
    let shares_len: usize = match reader.u16() {
        Some(n) => n as usize,
        None => return None,
    };
    if reader.remaining() != shares_len {
        return None;
    }
    let ghost all = reader.left();
    while reader.remaining() > 0
        invariant
            reader.inv(),
            all == wire::after(ext_data@, 2),
            ext_data@.len() >= 2,
            wire::u16_at(ext_data@, 0) == ext_data@.len() - 2,
            first_x25519(reader.left()) == first_x25519(all),
        decreases reader.left().len(),
    {
        let ghost here = reader.left();
        let group: u16 = match reader.u16() {
            Some(n) => n,
            None => return None,
        };
        let key_len: usize = match reader.u16() {
            Some(n) => n as usize,
            None => return None,
        };
        assert(wire::u16_at(wire::after(here, 2), 0) == wire::u16_at(here, 2));
        let key = match reader.take(key_len) {
            Some(part) => part,
            None => return None,
        };
        assert(key@ =~= here.subrange(4, 4 + key_len));
        assert(reader.left() =~= wire::after(here, 4 + key_len));
        if group == GROUP_X25519 && key_len == X25519_KEY_LEN {
            let out: [u8; 32] = array_at::<32>(key, 0);
            assert(out@ =~= here.subrange(4, 36));
            return Some(out);
        }
        if group == GROUP_X25519MLKEM768 && key_len == MLKEM768_ENCAP_LEN + X25519_KEY_LEN {
            let out: [u8; 32] = array_at::<32>(key, MLKEM768_ENCAP_LEN);
            assert(out@ =~= here.subrange(4 + MLKEM768_ENCAP_LEN, 36 + MLKEM768_ENCAP_LEN));
            return Some(out);
        }
    }
    None
}

/// What `parse_extensions` collects.
struct Collected {
    server_name: String,
    key_share_x25519: Option<[u8; 32]>,
    offers_tls13: bool,
}

impl Collected {
    /// Holds what the extensions in `list` say.
    spec fn says(&self, list: Seq<Extension>) -> bool {
        &&& self.server_name@ == server_name_of(list)
        &&& key_view(self.key_share_x25519) == key_share_of(list)
        &&& self.offers_tls13 == offers_tls13_of(list)
    }

    fn new() -> (r: Self)
        ensures
            r.says(Seq::empty()),
    {
        let server_name = String::new();
        proof {
            reveal_strlit("");
        }
        assert(server_name@ =~= Seq::<char>::empty());
        Self { server_name, key_share_x25519: None, offers_tls13: false }
    }
}

/// Walks the extensions in `data`; `None` when the last is cut short.
fn parse_extensions(data: &[u8]) -> (r: Option<Collected>)
    ensures
        match r {
            Some(c) => extensions(data@) is Some && c.says(extensions(data@)->0),
            None => extensions(data@) is None,
        },
{
    let mut out = Collected::new();
    let mut reader = Reader::new(data);
    let ghost mut done: Seq<Extension> = Seq::empty();
    proof {
        if extensions(data@) is Some {
            assert(done + extensions(data@)->0 =~= extensions(data@)->0);
        }
    }
    while reader.remaining() > 0
        invariant
            reader.inv(),
            out.says(done),
            match extensions(reader.left()) {
                Some(rest) => extensions(data@) == Some(done + rest),
                None => extensions(data@) is None,
            },
        decreases reader.left().len(),
    {
        let ghost here = reader.left();
        let ext_type: u16 = match reader.u16() {
            Some(n) => n,
            None => return None,
        };
        let ext_len: usize = match reader.u16() {
            Some(n) => n as usize,
            None => return None,
        };
        assert(wire::u16_at(wire::after(here, 2), 0) == wire::u16_at(here, 2));
        let ext_data = match reader.take(ext_len) {
            Some(part) => part,
            None => return None,
        };
        assert(ext_data@ =~= here.subrange(4, 4 + ext_len));
        assert(reader.left() =~= wire::after(here, 4 + ext_len));
        let ghost ext = Extension { kind: ext_type as int, data: ext_data@ };
        let ghost next = done.push(ext);
        assert(next.drop_last() =~= done);
        proof {
            if extensions(reader.left()) is Some {
                let rest = extensions(reader.left())->0;
                assert(done + (seq![ext] + rest) =~= next + rest);
            }
        }
        if ext_type == EXT_SERVER_NAME {
            if let Some(name) = parse_sni(ext_data) {
                out.server_name = name;
            }
        } else if ext_type == EXT_SUPPORTED_VERSIONS {
            out.offers_tls13 = parse_supported_versions(ext_data);
        } else if ext_type == EXT_KEY_SHARE {
            out.key_share_x25519 = parse_key_share(ext_data);
        }
        proof {
            done = next;
        }
    }
    assert(done + Seq::<Extension>::empty() =~= done);
    Some(out)
}

/// Parses a ClientHello handshake message (`type || u24 length || body`).
pub fn parse(message: &[u8]) -> (r: Result<ParsedClientHello, RealityError>)
    ensures
        match r {
            Ok(hello) => client_hello(message@) == Ok::<_, RealityError>(hello@),
            Err(error) => client_hello(message@) == Err::<ClientHelloView, _>(error),
        },
{
    let len: usize = message.len();
    if len < 1 {
        return Err(RealityError::HelloTruncated);
    }
    if message[0] != HANDSHAKE_TYPE_CLIENT_HELLO {
        return Err(RealityError::NotClientHello);
    }
    if len < 4 {
        return Err(RealityError::HelloTruncated);
    }
    if len - 4 != get_u24(message, 1) {
        return Err(RealityError::HelloLengthMismatch);
    }
    // legacy_version (2), random (32), session id length (1)
    if len < 39 {
        return Err(RealityError::HelloTruncated);
    }
    let session_id_offset: usize = 39;
    let session_id_len: usize = message[38] as usize;
    let ciphers: usize = session_id_offset + session_id_len;
    if len < ciphers + 2 {
        return Err(RealityError::HelloTruncated);
    }
    let compression: usize = ciphers + 2 + get_u16(message, ciphers) as usize;
    if len < compression + 1 {
        return Err(RealityError::HelloTruncated);
    }
    let rest: usize = compression + 1 + message[compression] as usize;
    if len < rest {
        return Err(RealityError::HelloTruncated);
    }
    let collected = if len > rest {
        if len < rest + 2 {
            return Err(RealityError::HelloTruncated);
        }
        if len - rest - 2 != get_u16(message, rest) as usize {
            return Err(RealityError::ExtensionsLengthMismatch);
        }
        match parse_extensions(slice_subrange(message, rest + 2, len)) {
            Some(c) => c,
            None => return Err(RealityError::HelloTruncated),
        }
    } else {
        Collected::new()
    };
    let random: [u8; 32] = array_at::<32>(message, 6);
    let session_id: [u8; 32] = if session_id_len == 32 {
        array_at::<32>(message, session_id_offset)
    } else {
        [0u8; 32]
    };
    assert(session_id@ =~= (if message@[38] == 32 {
        message@.subrange(39, 71)
    } else {
        wire::repeated(0, 32)
    }));
    Ok(
        ParsedClientHello {
            random,
            server_name: collected.server_name,
            key_share_x25519: collected.key_share_x25519,
            offers_tls13: collected.offers_tls13,
            session_id_offset,
            session_id,
        },
    )
}

/// The data of a supported_versions extension that lists `versions`, in which `tail` is left over.
pub open spec fn written_versions(versions: Seq<u16>, tail: Seq<u8>) -> Seq<u8> {
    seq![(2 * versions.len() + tail.len()) as u8] + Seq::new(
        2 * versions.len(),
        |i: int|
            if i % 2 == 0 {
                (versions[i / 2] as int / 256) as u8
            } else {
                (versions[i / 2] as int % 256) as u8
            },
    ) + tail
}

/// TLS 1.3 is found wherever it stands in a list of versions, and only there: a list offers it
/// exactly when version 0x0304 is one of its members. A single byte behind the list is ignored.
pub proof fn lemma_tls13_is_found_anywhere(versions: Seq<u16>, tail: Seq<u8>)
    requires
        2 * versions.len() + tail.len() <= 255,
        tail.len() <= 1,
    ensures
        lists_tls13(written_versions(versions, tail)) <==> versions.contains(0x0304u16),
{
    let data = written_versions(versions, tail);
    assert forall|k: int| 0 <= k < versions.len() implies #[trigger] wire::u16_at(data, 1 + 2 * k)
        == versions[k] by {
        assert(data[1 + 2 * k] == (versions[k] as int / 256) as u8);
        assert(data[2 + 2 * k] == (versions[k] as int % 256) as u8);
    }
    if versions.contains(0x0304u16) {
        let k = choose|k: int| 0 <= k < versions.len() && versions[k] == 0x0304u16;
        assert(wire::u16_at(data, 1 + 2 * k) == 0x0304);
    }
    if lists_tls13(data) {
        let k = choose|k: int|
            0 <= k && 2 * k + 2 < data.len() && #[trigger] wire::u16_at(data, 1 + 2 * k)
                == TLS13_VERSION;
        assert(k < versions.len());
        assert(versions[k] == 0x0304u16);
    }
}

/// A list whose length byte does not say how many bytes follow offers nothing.
pub proof fn lemma_versions_of_another_length(data: Seq<u8>)
    requires
        data.len() == 0 || data[0] as int != data.len() - 1,
    ensures
        !lists_tls13(data),
{
}

/// A name of a server_name extension as it is written.
pub open spec fn written_name(kind: u8, name: Seq<u8>) -> Seq<u8> {
    seq![kind, (name.len() as int / 256) as u8, (name.len() as int % 256) as u8] + name
}

/// Names one after the other.
pub open spec fn written_names(names: Seq<(u8, Seq<u8>)>) -> Seq<u8>
    decreases names.len(),
{
    if names.len() == 0 {
        Seq::empty()
    } else {
        written_name(names[0].0, names[0].1) + written_names(names.subrange(1, names.len() as int))
    }
}

/// The data of a server_name extension with these names.
pub open spec fn written_sni(names: Seq<(u8, Seq<u8>)>) -> Seq<u8> {
    let all = written_names(names);
    seq![(all.len() as int / 256) as u8, (all.len() as int % 256) as u8] + all
}

proof fn lemma_first_host_name(names: Seq<(u8, Seq<u8>)>, k: int)
    requires
        0 <= k <= names.len(),
        forall|i: int| 0 <= i < names.len() ==> (#[trigger] names[i]).1.len() < 65536,
        forall|i: int| 0 <= i < k ==> (#[trigger] names[i]).0 != 0,
        k < names.len() ==> names[k].0 == 0,
    ensures
        first_host_name(written_names(names)) == (if k < names.len() {
            Some(names[k].1)
        } else {
            None
        }),
    decreases names.len(),
{
    if names.len() > 0 {
        let s = written_names(names);
        let rest = names.subrange(1, names.len() as int);
        let (kind, name) = names[0];
        let n = name.len() as int;
        assert(s[0] == kind && s[1] == (n / 256) as u8 && s[2] == (n % 256) as u8);
        assert(name.len() < 65536);
        assert(wire::u16_at(s, 1) == n);
        assert(s.subrange(3, 3 + n) =~= name);
        assert(wire::after(s, 3 + n) =~= written_names(rest));
        if k > 0 {
            assert(names[0].0 != 0);
            assert forall|i: int| 0 <= i < rest.len() implies (#[trigger] rest[i]).1.len()
                < 65536 by {
                assert(rest[i] == names[i + 1]);
            }
            assert forall|i: int| 0 <= i < k - 1 implies (#[trigger] rest[i]).0 != 0 by {
                assert(rest[i] == names[i + 1]);
            }
            if k < names.len() {
                assert(rest[k - 1] == names[k]);
            }
            lemma_first_host_name(rest, k - 1);
        }
    }
}

/// The first host name of a server_name extension is read, in lower case, whatever other names are
/// around it; there is none when no name is a host name or the first is no text.
pub proof fn lemma_first_host_name_is_read(names: Seq<(u8, Seq<u8>)>, k: int)
    requires
        0 <= k <= names.len(),
        written_names(names).len() < 65536,
        forall|i: int| 0 <= i < names.len() ==> (#[trigger] names[i]).1.len() < 65536,
        forall|i: int| 0 <= i < k ==> (#[trigger] names[i]).0 != 0,
        k < names.len() ==> names[k].0 == 0,
    ensures
        host_name(written_sni(names)) == (if k < names.len() && valid_utf8(names[k].1) {
            Some(text::lowercase(decode_utf8(names[k].1)))
        } else {
            None
        }),
{
    let data = written_sni(names);
    let all = written_names(names);
    assert(wire::u16_at(data, 0) == all.len());
    assert(wire::after(data, 2) =~= all);
    lemma_first_host_name(names, k);
}

/// A key share as it is written.
pub open spec fn written_share(group: u16, key: Seq<u8>) -> Seq<u8> {
    seq![
        (group as int / 256) as u8,
        (group as int % 256) as u8,
        (key.len() as int / 256) as u8,
        (key.len() as int % 256) as u8,
    ] + key
}

/// Key shares one after the other.
pub open spec fn written_shares(shares: Seq<(u16, Seq<u8>)>) -> Seq<u8>
    decreases shares.len(),
{
    if shares.len() == 0 {
        Seq::empty()
    } else {
        written_share(shares[0].0, shares[0].1) + written_shares(
            shares.subrange(1, shares.len() as int),
        )
    }
}

/// The data of a key_share extension with these shares.
pub open spec fn written_key_share(shares: Seq<(u16, Seq<u8>)>) -> Seq<u8> {
    let all = written_shares(shares);
    seq![(all.len() as int / 256) as u8, (all.len() as int % 256) as u8] + all
}

/// Whether a share ends with an X25519 key: one of 32 bytes, or one behind 1184 bytes of ML-KEM.
pub open spec fn holds_x25519(share: (u16, Seq<u8>)) -> bool {
    (share.0 == 0x001d && share.1.len() == 32) || (share.0 == 0x11ec && share.1.len() == 1216)
}

proof fn lemma_first_x25519(shares: Seq<(u16, Seq<u8>)>, k: int)
    requires
        0 <= k <= shares.len(),
        forall|i: int| 0 <= i < shares.len() ==> (#[trigger] shares[i]).1.len() < 65536,
        forall|i: int| 0 <= i < k ==> !holds_x25519(#[trigger] shares[i]),
        k < shares.len() ==> holds_x25519(shares[k]),
    ensures
        first_x25519(written_shares(shares)) == (if k < shares.len() {
            Some(shares[k].1.subrange(shares[k].1.len() - 32, shares[k].1.len() as int))
        } else {
            None
        }),
    decreases shares.len(),
{
    if shares.len() > 0 {
        let s = written_shares(shares);
        let rest = shares.subrange(1, shares.len() as int);
        let (group, key) = shares[0];
        let n = key.len() as int;
        assert(key.len() < 65536);
        assert(s[0] == (group as int / 256) as u8 && s[1] == (group as int % 256) as u8);
        assert(s[2] == (n / 256) as u8 && s[3] == (n % 256) as u8);
        assert(wire::u16_at(s, 0) == group);
        assert(wire::u16_at(s, 2) == n);
        assert(s.subrange(4, 4 + n) =~= key);
        assert(wire::after(s, 4 + n) =~= written_shares(rest));
        if k > 0 {
            assert(!holds_x25519(shares[0]));
            assert forall|i: int| 0 <= i < rest.len() implies (#[trigger] rest[i]).1.len()
                < 65536 by {
                assert(rest[i] == shares[i + 1]);
            }
            assert forall|i: int| 0 <= i < k - 1 implies !holds_x25519(#[trigger] rest[i]) by {
                assert(rest[i] == shares[i + 1]);
            }
            if k < shares.len() {
                assert(rest[k - 1] == shares[k]);
            }
            lemma_first_x25519(rest, k - 1);
        } else if group == 0x001d {
            assert(s.subrange(4, 36) =~= key.subrange(n - 32, n));
        } else {
            assert(s.subrange(1188, 1220) =~= key.subrange(n - 32, n));
        }
    }
}

/// The first share that holds an X25519 key, alone or behind an ML-KEM key, gives the key: its last
/// 32 bytes. Shares of other groups and other lengths are passed over, wherever they stand.
pub proof fn lemma_first_x25519_share_is_read(shares: Seq<(u16, Seq<u8>)>, k: int)
    requires
        0 <= k <= shares.len(),
        written_shares(shares).len() < 65536,
        forall|i: int| 0 <= i < shares.len() ==> (#[trigger] shares[i]).1.len() < 65536,
        forall|i: int| 0 <= i < k ==> !holds_x25519(#[trigger] shares[i]),
        k < shares.len() ==> holds_x25519(shares[k]),
    ensures
        x25519_share(written_key_share(shares)) == (if k < shares.len() {
            Some(shares[k].1.subrange(shares[k].1.len() - 32, shares[k].1.len() as int))
        } else {
            None
        }),
{
    let data = written_key_share(shares);
    let all = written_shares(shares);
    assert(wire::u16_at(data, 0) == all.len());
    assert(wire::after(data, 2) =~= all);
    lemma_first_x25519(shares, k);
}

/// Names and key shares whose length field does not say how many bytes follow say nothing.
pub proof fn lemma_lists_of_another_length(data: Seq<u8>)
    requires
        data.len() < 2 || data[0] as int * 256 + data[1] as int != data.len() - 2,
    ensures
        host_name(data) is None,
        x25519_share(data) is None,
{
}

/// Extensions one after the other, as they are written.
pub open spec fn written_extensions(list: Seq<Extension>) -> Seq<u8>
    decreases list.len(),
{
    if list.len() == 0 {
        Seq::empty()
    } else {
        let e = list[0];
        seq![
            (e.kind / 256) as u8,
            (e.kind % 256) as u8,
            (e.data.len() as int / 256) as u8,
            (e.data.len() as int % 256) as u8,
        ] + e.data + written_extensions(list.subrange(1, list.len() as int))
    }
}

/// Extensions are read back as they were written, all of them and in their order.
pub proof fn lemma_extensions_round_trip(list: Seq<Extension>)
    requires
        forall|i: int|
            0 <= i < list.len() ==> 0 <= (#[trigger] list[i]).kind < 65536 && list[i].data.len()
                < 65536,
    ensures
        extensions(written_extensions(list)) == Some(list),
    decreases list.len(),
{
    if list.len() > 0 {
        let s = written_extensions(list);
        let rest = list.subrange(1, list.len() as int);
        let e = list[0];
        let n = e.data.len() as int;
        assert(0 <= list[0].kind < 65536);
        assert(s[0] == (e.kind / 256) as u8 && s[1] == (e.kind % 256) as u8);
        assert(s[2] == (n / 256) as u8 && s[3] == (n % 256) as u8);
        assert(wire::u16_at(s, 0) == e.kind);
        assert(wire::u16_at(s, 2) == n);
        assert(s.subrange(4, 4 + n) =~= e.data);
        assert(wire::after(s, 4 + n) =~= written_extensions(rest));
        assert forall|i: int| 0 <= i < rest.len() implies 0 <= (#[trigger] rest[i]).kind < 65536
            && rest[i].data.len() < 65536 by {
            assert(rest[i] == list[i + 1]);
        }
        lemma_extensions_round_trip(rest);
        assert(seq![e] + rest =~= list);
    } else {
        assert(list =~= Seq::<Extension>::empty());
    }
}

/// What the extensions of a message say: versions and key shares by the last extension of their
/// kind, the name by the last that holds one. Extensions of other kinds make no difference.
pub proof fn lemma_last_extension_counts(list: Seq<Extension>, e: Extension)
    ensures
        offers_tls13_of(list.push(e)) == (if e.kind == 43 {
            lists_tls13(e.data)
        } else {
            offers_tls13_of(list)
        }),
        key_share_of(list.push(e)) == (if e.kind == 51 {
            x25519_share(e.data)
        } else {
            key_share_of(list)
        }),
        server_name_of(list.push(e)) == (if e.kind == 0 && host_name(e.data) is Some {
            host_name(e.data)->0
        } else {
            server_name_of(list)
        }),
        !offers_tls13_of(Seq::empty()),
        key_share_of(Seq::empty()) is None,
        server_name_of(Seq::empty()) == Seq::<char>::empty(),
{
    assert(list.push(e).drop_last() =~= list);
}

/// A ClientHello message as it is written.
pub open spec fn written_hello(
    version: u16,
    random: Seq<u8>,
    session_id: Seq<u8>,
    ciphers: Seq<u8>,
    compression: Seq<u8>,
    list: Seq<Extension>,
) -> Seq<u8> {
    let exts = written_extensions(list);
    let body = seq![(version as int / 256) as u8, (version as int % 256) as u8] + random + seq![
        session_id.len() as u8,
    ] + session_id + seq![
        (ciphers.len() as int / 256) as u8,
        (ciphers.len() as int % 256) as u8,
    ] + ciphers + seq![compression.len() as u8] + compression + seq![
        (exts.len() as int / 256) as u8,
        (exts.len() as int % 256) as u8,
    ] + exts;
    let n = body.len() as int;
    seq![1u8, (n / 65536) as u8, (n / 256 % 256) as u8, (n % 256) as u8] + body
}

proof fn lemma_pieces_of_a_hello(
    head: Seq<u8>,
    version: Seq<u8>,
    random: Seq<u8>,
    id_len: Seq<u8>,
    id: Seq<u8>,
    ciphers_len: Seq<u8>,
    ciphers: Seq<u8>,
    methods_len: Seq<u8>,
    methods: Seq<u8>,
    exts_len: Seq<u8>,
    exts: Seq<u8>,
)
    requires
        head.len() == 4,
        version.len() == 2,
        random.len() == 32,
        id_len.len() == 1,
        ciphers_len.len() == 2,
        methods_len.len() == 1,
        exts_len.len() == 2,
    ensures
        ({
            let body = version + random + id_len + id + ciphers_len + ciphers + methods_len
                + methods + exts_len + exts;
            let m = head + body;
            let s = 39 + id.len() as int;
            let c = s + 2 + ciphers.len() as int;
            let x = c + 1 + methods.len() as int;
            &&& m.len() == x + 2 + exts.len()
            &&& body.len() == m.len() - 4
            &&& m[0] == head[0] && m[1] == head[1] && m[2] == head[2] && m[3] == head[3]
            &&& m.subrange(6, 38) == random
            &&& m[38] == id_len[0]
            &&& m.subrange(39, s) == id
            &&& m[s] == ciphers_len[0] && m[s + 1] == ciphers_len[1]
            &&& m[c] == methods_len[0]
            &&& m[x] == exts_len[0] && m[x + 1] == exts_len[1]
            &&& wire::after(m, x + 2) == exts
        }),
{
    let b1 = version + random;
    let b2 = b1 + id_len;
    let b3 = b2 + id;
    let b4 = b3 + ciphers_len;
    let b5 = b4 + ciphers;
    let b6 = b5 + methods_len;
    let b7 = b6 + methods;
    let b8 = b7 + exts_len;
    let body = b8 + exts;
    let m = head + body;
    let s = 39 + id.len() as int;
    let c = s + 2 + ciphers.len() as int;
    let x = c + 1 + methods.len() as int;
    assert forall|i: int| 0 <= i < body.len() implies m[i + 4] == body[i] by {}
    assert forall|i: int| 0 <= i < b8.len() implies body[i] == b8[i] by {}
    assert forall|i: int| 0 <= i < b7.len() implies body[i] == b7[i] by {}
    assert forall|i: int| 0 <= i < b6.len() implies body[i] == b6[i] by {}
    assert forall|i: int| 0 <= i < b5.len() implies body[i] == b5[i] by {}
    assert forall|i: int| 0 <= i < b4.len() implies body[i] == b4[i] by {}
    assert forall|i: int| 0 <= i < b3.len() implies body[i] == b3[i] by {}
    assert forall|i: int| 0 <= i < b2.len() implies body[i] == b2[i] by {}
    assert(m.subrange(6, 38) =~= random);
    assert(m.subrange(39, s) =~= id);
    assert(m[s] == b4[s - 4] && m[s + 1] == b4[s - 3]);
    assert(m[c] == b6[c - 4]);
    assert(m[x] == b8[x - 4] && m[x + 1] == b8[x - 3]);
    assert(wire::after(m, x + 2) =~= exts);
}

/// A ClientHello is read back as it was written, whatever its version, cipher suites and
/// compression methods: its random, its session id of 32 bytes at the place where it stands, and
/// what its extensions say.
#[verifier::spinoff_prover]
#[verifier::rlimit(60)]
pub proof fn lemma_hello_round_trip(
    version: u16,
    random: Seq<u8>,
    session_id: Seq<u8>,
    ciphers: Seq<u8>,
    compression: Seq<u8>,
    list: Seq<Extension>,
)
    requires
        random.len() == 32,
        session_id.len() <= 255,
        ciphers.len() < 65536,
        compression.len() <= 255,
        written_extensions(list).len() < 65536,
        forall|i: int|
            0 <= i < list.len() ==> 0 <= (#[trigger] list[i]).kind < 65536 && list[i].data.len()
                < 65536,
    ensures
        ({
            let m = written_hello(version, random, session_id, ciphers, compression, list);
            &&& client_hello(m) matches Ok(hello)
            &&& hello.random == random
            &&& hello.server_name == server_name_of(list)
            &&& hello.key_share_x25519 == key_share_of(list)
            &&& hello.offers_tls13 == offers_tls13_of(list)
            &&& session_id.len() == 32 ==> hello.session_id == session_id && m.subrange(
                hello.session_id_offset,
                hello.session_id_offset + 32,
            ) == session_id
            &&& session_id.len() != 32 ==> hello.session_id == Seq::new(32, |i: int| 0u8)
        }),
{
    let m = written_hello(version, random, session_id, ciphers, compression, list);
    let exts = written_extensions(list);
    let n = m.len() - 4;
    let s = session_id.len() as int;
    let c = ciphers.len() as int;
    let p = compression.len() as int;
    let e = exts.len() as int;
    lemma_pieces_of_a_hello(
        seq![1u8, (n / 65536) as u8, (n / 256 % 256) as u8, (n % 256) as u8],
        seq![(version as int / 256) as u8, (version as int % 256) as u8],
        random,
        seq![s as u8],
        session_id,
        seq![(c / 256) as u8, (c % 256) as u8],
        ciphers,
        seq![p as u8],
        compression,
        seq![(e / 256) as u8, (e % 256) as u8],
        exts,
    );
    assert(wire::u24_at(m, 1) == n);
    assert(m[38] == s);
    assert(ciphers_at(m) == 39 + s);
    assert(wire::u16_at(m, 39 + s) == c);
    assert(compression_at(m) == 41 + s + c);
    assert(m[41 + s + c] == p);
    assert(extensions_at(m) == 42 + s + c + p);
    assert(wire::u16_at(m, 42 + s + c + p) == e);
    lemma_extensions_round_trip(list);
    assert(wire::repeated(0, 32) =~= Seq::new(32, |i: int| 0u8));
}

/// A message of another type is no ClientHello, and one whose length field is wrong is refused:
/// nothing may follow the body.
pub proof fn lemma_other_messages(m: Seq<u8>)
    ensures
        client_hello(m) is Ok ==> m.len() >= 39 && m[0] == 1 && m[1] as int * 65536 + m[2] as int
            * 256 + m[3] as int == m.len() - 4,
        m.len() >= 1 && m[0] != 1 ==> client_hello(m) == Err::<ClientHelloView, _>(
            RealityError::NotClientHello,
        ),
        m.len() >= 4 && m[0] == 1 && m[1] as int * 65536 + m[2] as int * 256 + m[3] as int != m.len()
            - 4 ==> client_hello(m) == Err::<ClientHelloView, _>(RealityError::HelloLengthMismatch),
{
}

} // verus!
