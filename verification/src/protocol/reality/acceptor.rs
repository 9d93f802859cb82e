//! Deciding what a REALITY connection is: a client of ours, or a visitor of the decoy site.
//!
//! The ClientHello is read off the raw connection, within a size limit, before anything is
//! decided. An authenticated client gets a TLS handshake with the same bytes; everybody else, also
//! who sends no ClientHello at all, is connected to the target, which then gets the same bytes.
//! Only who exceeds the limit is dropped.

use super::client_hello::{self, parse, RECORD_TYPE_HANDSHAKE};
use super::config::{contains_id, contains_name, RealityServer, ServerView};
use super::crypto::{
    self, derive_auth_key, open_session_id, parse_plaintext, split_session_id, HmacInput,
    SESSION_ID_LEN,
};
use super::RealityError;
use crate::wire::{self, append, copy_part, get_u16, get_u24, Decoded, Progress};
use vstd::prelude::*;
use vstd::slice::*;

verus! {

pub const TLS_RECORD_HEADER_LEN: usize = 5;

pub const MAX_RECORD_LEN: usize = 16384;

/// Whether a handshake message is complete, once its header is there.
pub open spec fn is_complete(message: Seq<u8>) -> bool {
    message.len() >= 4 && message.len() >= wire::u24_at(message, 1) + 4
}

/// The handshake message in the records from byte `pos` on, behind the bytes `message` of it that
/// earlier records hold. No more than `max` bytes of records are read.
pub open spec fn hello_from(b: Seq<u8>, pos: int, message: Seq<u8>, max: int) -> Progress<
    Seq<u8>,
    RealityError,
>
    decreases max - pos,
{
    if pos < 0 || pos + 5 > max {
        Progress::Fail(RealityError::HelloTooLarge)
    } else if b.len() < pos + 5 {
        Progress::Need(pos + 5 - b.len())
    } else if b[pos] != RECORD_TYPE_HANDSHAKE {
        Progress::Fail(RealityError::NotHandshakeRecord)
    } else {
        let len = wire::u16_at(b, pos + 3);
        let end = pos + 5 + len;
        if len == 0 || len > MAX_RECORD_LEN {
            Progress::Fail(RealityError::RecordLength)
        } else if end > max {
            Progress::Fail(RealityError::HelloTooLarge)
        } else if b.len() < end {
            Progress::Need(end - b.len())
        } else {
            let all = message + b.subrange(pos + 5, end);
            if is_complete(all) {
                Progress::Done(all.subrange(0, wire::u24_at(all, 1) + 4), end)
            } else if end >= max {
                Progress::Fail(RealityError::HelloTooLarge)
            } else {
                hello_from(b, end, all, max)
            }
        }
    }
}

/// The ClientHello handshake message that the records in `b` hold.
pub open spec fn hello_records(b: Seq<u8>, max: int) -> Progress<Seq<u8>, RealityError> {
    hello_from(b, 0, Seq::empty(), max)
}

/// Takes the handshake message out of the records received so far.
///
/// The bytes consumed are those of whole records, so what was read up to `Done` is what has to be
/// replayed.
pub fn read_client_hello(b: &[u8], max: usize) -> (r: Decoded<Vec<u8>, RealityError>)
    ensures
        r.progress() == hello_records(b@, max as int),
{
    let total: usize = b.len();
    let mut message: Vec<u8> = Vec::new();
    let mut pos: usize = 0;
    assert(message@ =~= Seq::empty());
    loop
        invariant
            total == b@.len(),
            pos <= total,
            pos <= max,
            hello_from(b@, pos as int, message@, max as int) == hello_records(b@, max as int),
        decreases max - pos,
    {
        if max - pos < TLS_RECORD_HEADER_LEN {
            return Decoded::Fail(RealityError::HelloTooLarge);
        }
        if total - pos < TLS_RECORD_HEADER_LEN {
            return Decoded::Need(TLS_RECORD_HEADER_LEN - (total - pos));
        }
        if b[pos] != RECORD_TYPE_HANDSHAKE {
            return Decoded::Fail(RealityError::NotHandshakeRecord);
        }
        let len: usize = get_u16(b, pos + 3) as usize;
        if len == 0 || len > MAX_RECORD_LEN {
            return Decoded::Fail(RealityError::RecordLength);
        }
        let start: usize = pos + TLS_RECORD_HEADER_LEN;
        if max - start < len {
            return Decoded::Fail(RealityError::HelloTooLarge);
        }
        if total - start < len {
            return Decoded::Need(len - (total - start));
        }
        let end: usize = start + len;
        append(&mut message, slice_subrange(b, start, end));
        if message.len() >= 4 {
            let body: usize = get_u24(message.as_slice(), 1);
            if message.len() - 4 >= body {
                return Decoded::Done(copy_part(message.as_slice(), 0, body + 4), end);
            }
        }
        if end >= max {
            return Decoded::Fail(RealityError::HelloTooLarge);
        }
        pos = end;
    }
}

proof fn lemma_hello_from_prefix(b: Seq<u8>, n: int, pos: int, message: Seq<u8>, max: int)
    requires
        0 <= n <= b.len(),
        0 <= pos,
        hello_from(b, pos, message, max) is Done,
    ensures
        match hello_from(b.subrange(0, n), pos, message, max) {
            Progress::Need(more) => more > 0 && n + more <= hello_from(b, pos, message, max)->1,
            Progress::Done(m, used) => hello_from(b, pos, message, max) == Progress::<
                _,
                RealityError,
            >::Done(m, used),
            Progress::Fail(_) => false,
        },
        pos + 5 <= hello_from(b, pos, message, max)->1 <= b.len(),
    decreases max - pos,
{
    let p = b.subrange(0, n);
    if pos + 5 <= max && b.len() >= pos + 5 {
        let len = wire::u16_at(b, pos + 3);
        let end = pos + 5 + len;
        if len > 0 && end <= max && b.len() >= end {
            let all = message + b.subrange(pos + 5, end);
            if n >= end {
                assert(p.subrange(pos + 5, end) =~= b.subrange(pos + 5, end));
            }
            if !is_complete(all) && end < max {
                lemma_hello_from_prefix(b, n, end, all, max);
            }
        }
    }
}

/// A reader that asks for the missing bytes never reads past the record that completes the
/// message, so nothing that follows it is taken off the connection.
pub proof fn lemma_hello_prefix(b: Seq<u8>, n: int, max: int)
    requires
        0 <= n <= b.len(),
        hello_records(b, max) is Done,
    ensures
        match hello_records(b.subrange(0, n), max) {
            Progress::Need(more) => more > 0 && n + more <= hello_records(b, max)->1,
            Progress::Done(m, used) => hello_records(b, max) == Progress::<_, RealityError>::Done(
                m,
                used,
            ),
            Progress::Fail(_) => false,
        },
{
    lemma_hello_from_prefix(b, n, 0, Seq::empty(), max);
}

/// One handshake record.
pub open spec fn record(payload: Seq<u8>) -> Seq<u8> {
    seq![RECORD_TYPE_HANDSHAKE, 3u8, 1u8] + wire::be16(payload.len() as int) + payload
}

/// Handshake records, one per fragment.
pub open spec fn records(fragments: Seq<Seq<u8>>) -> Seq<u8>
    decreases fragments.len(),
{
    if fragments.len() == 0 {
        Seq::empty()
    } else {
        record(fragments[0]) + records(fragments.subrange(1, fragments.len() as int))
    }
}

/// The fragments put together.
pub open spec fn joined(fragments: Seq<Seq<u8>>) -> Seq<u8>
    decreases fragments.len(),
{
    if fragments.len() == 0 {
        Seq::empty()
    } else {
        fragments[0] + joined(fragments.subrange(1, fragments.len() as int))
    }
}

proof fn lemma_fragments_from(
    before: Seq<u8>,
    message: Seq<u8>,
    fragments: Seq<Seq<u8>>,
    rest: Seq<u8>,
    max: int,
)
    requires
        fragments.len() > 0,
        forall|k: int| 0 <= k < fragments.len() ==> 0 < (#[trigger] fragments[k]).len() <= 16384,
        before.len() + records(fragments).len() <= max,
        (message + joined(fragments)).len() >= 4,
        (message + joined(fragments)).len() == wire::u24_at(message + joined(fragments), 1) + 4,
    ensures
        hello_from(before + records(fragments) + rest, before.len() as int, message, max)
            == Progress::<_, RealityError>::Done(
            message + joined(fragments),
            (before + records(fragments)).len() as int,
        ),
    decreases fragments.len(),
{
    let first = fragments[0];
    let tail = fragments.subrange(1, fragments.len() as int);
    let b = before + records(fragments) + rest;
    let pos = before.len() as int;
    let end = pos + 5 + first.len() as int;
    let whole = message + joined(fragments);
    let rec = record(first);
    assert(records(fragments) =~= rec + records(tail));
    assert(rec.len() == 5 + first.len());
    assert forall|i: int| 0 <= i < rec.len() implies b[pos + i] == rec[i] by {}
    assert(b[pos] == rec[0] && b[pos + 3] == rec[3] && b[pos + 4] == rec[4]);
    assert(wire::u16_at(b, pos + 3) == first.len());
    assert(b.subrange(pos + 5, end) =~= first);
    let all = message + first;
    assert(whole =~= all + joined(tail));
    if all.len() >= 4 {
        assert(wire::u24_at(all, 1) == wire::u24_at(whole, 1));
    }
    if tail.len() == 0 {
        assert(joined(tail) =~= Seq::empty());
        assert(all =~= whole);
        assert(all.subrange(0, all.len() as int) =~= all);
        assert(records(tail) =~= Seq::empty());
    } else {
        assert(tail[0].len() > 0);
        lemma_joined_nonempty(tail);
        assert(!is_complete(all));
        let before2 = before + rec;
        assert(b =~= before2 + records(tail) + rest);
        lemma_records_nonempty(tail);
        assert forall|k: int| 0 <= k < tail.len() implies 0 < (#[trigger] tail[k]).len() <= 16384 by {
            assert(tail[k] == fragments[k + 1]);
        }
        lemma_fragments_from(before2, all, tail, rest, max);
        assert((before + records(fragments)).len() == (before2 + records(tail)).len());
    }
}

proof fn lemma_joined_nonempty(fragments: Seq<Seq<u8>>)
    requires
        fragments.len() > 0,
        fragments[0].len() > 0,
    ensures
        joined(fragments).len() > 0,
{
}

proof fn lemma_records_nonempty(fragments: Seq<Seq<u8>>)
    requires
        fragments.len() > 0,
    ensures
        records(fragments).len() > 0,
{
}

/// However a message is cut into records that fit the limit, it is put together again, and the
/// bytes behind its last record are left alone.
pub proof fn lemma_fragments(fragments: Seq<Seq<u8>>, rest: Seq<u8>, max: int)
    requires
        fragments.len() > 0,
        forall|k: int| 0 <= k < fragments.len() ==> 0 < (#[trigger] fragments[k]).len() <= 16384,
        records(fragments).len() <= max,
        joined(fragments).len() >= 4,
        joined(fragments).len() == wire::u24_at(joined(fragments), 1) + 4,
    ensures
        hello_records(records(fragments) + rest, max) == Progress::<_, RealityError>::Done(
            joined(fragments),
            records(fragments).len() as int,
        ),
{
    let empty = Seq::<u8>::empty();
    assert(empty + joined(fragments) =~= joined(fragments));
    assert(empty + records(fragments) =~= records(fragments));
    lemma_fragments_from(empty, empty, fragments, rest, max);
}

/// The ClientHello with its session id zeroed.
pub open spec fn zeroed(message: Seq<u8>, offset: int) -> Seq<u8> {
    message.subrange(0, offset) + wire::repeated(0, SESSION_ID_LEN as nat) + wire::after(
        message,
        offset + SESSION_ID_LEN,
    )
}

/// Whether a ClientHello can be one of ours: TLS 1.3, one of our names, a key share, and a session
/// id in its place.
pub open spec fn may_authenticate(s: ServerView, message: Seq<u8>) -> bool {
    match client_hello::client_hello(message) {
        Err(_) => false,
        Ok(hello) => {
            &&& hello.offers_tls13
            &&& s.server_names.contains(hello.server_name)
            &&& hello.key_share_x25519 is Some
            &&& hello.session_id_offset + SESSION_ID_LEN <= message.len()
        },
    }
}

/// What has to be computed to authenticate a ClientHello.
pub struct PendingAuth {
    /// What goes into the extract HMAC of the key derivation.
    pub extract: HmacInput,
    /// Nonce, additional data, ciphertext and tag of the sealed session id.
    pub nonce: Vec<u8>,
    pub aad: Vec<u8>,
    pub ciphertext: Vec<u8>,
    pub tag: Vec<u8>,
}

impl PendingAuth {
    /// Holds of what is to be computed for `message`.
    pub open spec fn is_for(&self, s: ServerView, message: Seq<u8>) -> bool {
        let hello = client_hello::client_hello(message)->Ok_0;
        &&& self.extract.key@ == hello.random.subrange(0, 20)
        &&& self.extract.data@ == crypto::x25519(s.private_key, hello.key_share_x25519->0)
        &&& self.nonce@ == hello.random.subrange(20, 32)
        &&& self.aad@ == zeroed(message, hello.session_id_offset)
        &&& self.ciphertext@ == hello.session_id.subrange(0, 16)
        &&& self.tag@ == hello.session_id.subrange(16, 32)
    }
}

/// Looks at a ClientHello and says what has to be computed to authenticate it; `None` for a
/// visitor of the decoy site.
pub fn begin_authentication(server: &RealityServer, message: &[u8]) -> (r: Option<PendingAuth>)
    ensures
        match r {
            Some(pending) => may_authenticate(server@, message@) && pending.is_for(
                server@,
                message@,
            ),
            None => !may_authenticate(server@, message@),
        },
{
    let hello = match parse(message) {
        Ok(hello) => hello,
        Err(_) => return None,
    };
    if !hello.offers_tls13 {
        return None;
    }
    if !contains_name(&server.server_names, &hello.server_name) {
        return None;
    }
    let peer_public: [u8; 32] = match hello.key_share_x25519 {
        Some(key) => key,
        None => return None,
    };
    let offset: usize = hello.session_id_offset;
    assert(offset == 39);
    if offset + SESSION_ID_LEN > message.len() {
        return None;
    }
    let random: [u8; 32] = hello.random;
    let extract = derive_auth_key(
        &server.private_key,
        &peer_public,
        slice_subrange(&random, 0, 20),
    );
    let mut aad: Vec<u8> = copy_part(message, 0, offset);
    let zeros: [u8; 32] = [0u8; 32];
    assert(zeros@ =~= wire::repeated(0, 32));
    append(&mut aad, &zeros);
    append(&mut aad, slice_subrange(message, offset + SESSION_ID_LEN, message.len()));
    let nonce: Vec<u8> = copy_part(&random, 20, 32);
    match split_session_id(&hello.session_id) {
        Ok((ciphertext, tag)) => Some(PendingAuth { extract, nonce, aad, ciphertext, tag }),
        Err(_) => None,
    }
}

/// What a connection that has sent some bytes needs next.
pub enum RealityStep {
    /// This many more bytes.
    Read(usize),
    /// To be authenticated; it is forwarded if that fails.
    Authenticate(PendingAuth),
    /// To be connected to the target, which first gets all bytes that were received.
    Forward,
    /// To be dropped, for this reason.
    Drop(RealityError),
}

proof fn lemma_hello_need(b: Seq<u8>, pos: int, message: Seq<u8>, max: int)
    requires
        hello_from(b, pos, message, max) is Need,
    ensures
        hello_from(b, pos, message, max)->Need_0 > 0,
        b.len() + hello_from(b, pos, message, max)->Need_0 <= max,
    decreases max - pos,
{
    if b.len() >= pos + 5 {
        let end = pos + 5 + wire::u16_at(b, pos + 3);
        if b.len() >= end {
            lemma_hello_need(b, end, message + b.subrange(pos + 5, end), max);
        }
    }
}

/// What is done about a connection on which `received` came in.
pub open spec fn is_step(r: RealityStep, s: ServerView, received: Seq<u8>) -> bool {
    match hello_records(received, s.max_client_hello_size as int) {
        Progress::Need(n) => r == RealityStep::Read(n as usize) && 0 < n && received.len() + n
            <= s.max_client_hello_size,
        Progress::Done(message, _) => if may_authenticate(s, message) {
            r matches RealityStep::Authenticate(pending) && pending.is_for(s, message)
        } else {
            r is Forward
        },
        Progress::Fail(error) => if error == RealityError::HelloTooLarge {
            r == RealityStep::Drop(error)
        } else {
            r is Forward
        },
    }
}

/// What a connection needs next. Only a ClientHello that can be one of ours is authenticated; what
/// is no ClientHello, one that is malformed, and one for another name are all the target's. A
/// ClientHello that does not fit the limit is not waited for.
pub fn connection_step(server: &RealityServer, received: &[u8]) -> (r: RealityStep)
    ensures
        is_step(r, server@, received@),
{
    match read_client_hello(received, server.max_client_hello_size) {
        Decoded::Need(n) => {
            proof {
                lemma_hello_need(
                    received@,
                    0,
                    Seq::empty(),
                    server.max_client_hello_size as int,
                );
            }
            RealityStep::Read(n)
        },
        Decoded::Fail(RealityError::HelloTooLarge) => RealityStep::Drop(
            RealityError::HelloTooLarge,
        ),
        Decoded::Fail(_) => RealityStep::Forward,
        Decoded::Done(message, _) => match begin_authentication(server, message.as_slice()) {
            Some(pending) => RealityStep::Authenticate(pending),
            None => RealityStep::Forward,
        },
    }
}

/// Whether a client time is within the allowed difference to `now`.
pub open spec fn in_window(now: int, client: int, max_diff: Option<u64>) -> bool {
    match max_diff {
        None => true,
        Some(d) => client - d <= now <= client + d,
    }
}

/// Whether the client's clock is close enough to ours; always, unless a difference is set.
pub fn time_within_window(now: u64, client_unix: u32, max_diff: Option<u64>) -> (r: bool)
    ensures
        r == in_window(now as int, client_unix as int, max_diff),
{
    let d: u64 = match max_diff {
        Some(d) => d,
        None => return true,
    };
    let client: u64 = client_unix as u64;
    if now >= client {
        now - client <= d
    } else {
        client - now <= d
    }
}

/// Whether the plaintext of a session id is one that the server lets in at unix time `now`.
pub open spec fn admits(s: ServerView, plain: Seq<u8>, now: int) -> bool {
    &&& plain.len() == 16
    &&& s.short_ids.contains(plain.subrange(8, 16))
    &&& in_window(now, wire::u32_at(plain, 4), s.max_time_diff_secs)
}

/// Decides about a client, given what decryption made of its session id (nothing when the tag did
/// not match) and the unix time.
pub fn finish_authentication(server: &RealityServer, opened: Option<Vec<u8>>, now: u64) -> (r: bool)
    ensures
        r == (opened matches Some(plain) && admits(server@, plain@, now as int)),
{
    let plain: [u8; 16] = match open_session_id(opened) {
        Ok(plain) => plain,
        Err(_) => return false,
    };
    let (_version, unix_time, short_id) = parse_plaintext(&plain);
    contains_id(&server.short_ids, &short_id) && time_within_window(
        now,
        unix_time,
        server.max_time_diff_secs,
    )
}

/// Whether a ClientHello is authenticated, over a given HMAC-SHA256 and AES-256-GCM: `open` takes
/// key, nonce, additional data, ciphertext and tag.
pub open spec fn authenticated(
    s: ServerView,
    message: Seq<u8>,
    now: int,
    hmac: spec_fn(Seq<u8>, Seq<u8>) -> Seq<u8>,
    open: spec_fn(Seq<u8>, Seq<u8>, Seq<u8>, Seq<u8>, Seq<u8>) -> Option<Seq<u8>>,
) -> bool {
    may_authenticate(s, message) && {
        let hello = client_hello::client_hello(message)->Ok_0;
        let key = crypto::derived_key(
            hmac,
            hello.random.subrange(0, 20),
            crypto::x25519(s.private_key, hello.key_share_x25519->0),
        );
        match open(
            key,
            hello.random.subrange(20, 32),
            zeroed(message, hello.session_id_offset),
            hello.session_id.subrange(0, 16),
            hello.session_id.subrange(16, 32),
        ) {
            Some(plain) => admits(s, plain, now),
            None => false,
        }
    }
}

/// Doing what is pending, with the two HMACs and the decryption in their places, decides exactly
/// whether the ClientHello is authenticated.
pub proof fn lemma_pending_decides(
    s: ServerView,
    message: Seq<u8>,
    now: int,
    hmac: spec_fn(Seq<u8>, Seq<u8>) -> Seq<u8>,
    open: spec_fn(Seq<u8>, Seq<u8>, Seq<u8>, Seq<u8>, Seq<u8>) -> Option<Seq<u8>>,
    pending: PendingAuth,
    expand: HmacInput,
)
    requires
        may_authenticate(s, message),
        pending.is_for(s, message),
        expand.key@ == hmac(pending.extract.key@, pending.extract.data@),
        expand.data@ == crypto::hkdf_info_block(),
    ensures
        ({
            let key = hmac(expand.key@, expand.data@);
            let opened = open(
                key,
                pending.nonce@,
                pending.aad@,
                pending.ciphertext@,
                pending.tag@,
            );
            authenticated(s, message, now, hmac, open) == (opened matches Some(plain) && admits(
                s,
                plain,
                now,
            ))
        }),
{
}

/// A ClientHello with a session id of 32 bytes is taken for that of a client exactly when it offers
/// TLS 1.3, names one of the server's names and has an X25519 key; whatever else it holds.
pub proof fn lemma_clients_are_recognised(
    s: ServerView,
    version: u16,
    random: Seq<u8>,
    session_id: Seq<u8>,
    ciphers: Seq<u8>,
    compression: Seq<u8>,
    list: Seq<client_hello::Extension>,
)
    requires
        random.len() == 32,
        session_id.len() == 32,
        ciphers.len() < 65536,
        compression.len() <= 255,
        client_hello::written_extensions(list).len() < 65536,
        forall|i: int|
            0 <= i < list.len() ==> 0 <= (#[trigger] list[i]).kind < 65536 && list[i].data.len()
                < 65536,
    ensures
        may_authenticate(
            s,
            client_hello::written_hello(version, random, session_id, ciphers, compression, list),
        ) <==> client_hello::offers_tls13_of(list) && s.server_names.contains(
            client_hello::server_name_of(list),
        ) && client_hello::key_share_of(list) is Some,
{
    let m = client_hello::written_hello(version, random, session_id, ciphers, compression, list);
    client_hello::lemma_hello_round_trip(
        version,
        random,
        session_id,
        ciphers,
        compression,
        list,
    );
    client_hello::lemma_other_messages(m);
    lemma_session_id_fits(version, random, session_id, ciphers, compression, list);
}

proof fn lemma_session_id_fits(
    version: u16,
    random: Seq<u8>,
    session_id: Seq<u8>,
    ciphers: Seq<u8>,
    compression: Seq<u8>,
    list: Seq<client_hello::Extension>,
)
    requires
        random.len() == 32,
        session_id.len() == 32,
        client_hello::client_hello(
            client_hello::written_hello(version, random, session_id, ciphers, compression, list),
        ) is Ok,
    ensures
        ({
            let m = client_hello::written_hello(
                version,
                random,
                session_id,
                ciphers,
                compression,
                list,
            );
            client_hello::client_hello(m)->Ok_0.session_id_offset + 32 <= m.len()
        }),
{
}

/// What is computed for a client: the first HMAC is keyed with the first 20 bytes of its random and
/// runs over the shared secret of its key; the last 12 bytes are the nonce; the additional data is
/// the same ClientHello with a session id of zeros; and the session id is 16 bytes of ciphertext
/// and 16 of tag.
pub proof fn lemma_pending_is_made_of_the_hello(
    pending: PendingAuth,
    s: ServerView,
    version: u16,
    random: Seq<u8>,
    session_id: Seq<u8>,
    ciphers: Seq<u8>,
    compression: Seq<u8>,
    list: Seq<client_hello::Extension>,
)
    requires
        random.len() == 32,
        session_id.len() == 32,
        ciphers.len() < 65536,
        compression.len() <= 255,
        client_hello::written_extensions(list).len() < 65536,
        forall|i: int|
            0 <= i < list.len() ==> 0 <= (#[trigger] list[i]).kind < 65536 && list[i].data.len()
                < 65536,
        client_hello::key_share_of(list) is Some,
        pending.is_for(
            s,
            client_hello::written_hello(version, random, session_id, ciphers, compression, list),
        ),
    ensures
        pending.extract.key@ == random.subrange(0, 20),
        pending.extract.data@ == crypto::x25519(
            s.private_key,
            client_hello::key_share_of(list)->0,
        ),
        pending.nonce@ == random.subrange(20, 32),
        pending.ciphertext@ + pending.tag@ == session_id,
        pending.ciphertext@.len() == 16,
        pending.aad@ == client_hello::written_hello(
            version,
            random,
            Seq::new(32, |i: int| 0u8),
            ciphers,
            compression,
            list,
        ),
{
    client_hello::lemma_hello_round_trip(
        version,
        random,
        session_id,
        ciphers,
        compression,
        list,
    );
    assert(pending.ciphertext@ + pending.tag@ =~= session_id);
    lemma_zeroed_hello(version, random, session_id, ciphers, compression, list);
}

proof fn lemma_zeroed_hello(
    version: u16,
    random: Seq<u8>,
    session_id: Seq<u8>,
    ciphers: Seq<u8>,
    compression: Seq<u8>,
    list: Seq<client_hello::Extension>,
)
    requires
        random.len() == 32,
        session_id.len() == 32,
    ensures
        zeroed(
            client_hello::written_hello(version, random, session_id, ciphers, compression, list),
            39,
        ) == client_hello::written_hello(
            version,
            random,
            Seq::new(32, |i: int| 0u8),
            ciphers,
            compression,
            list,
        ),
{
    let zeros = Seq::new(32, |i: int| 0u8);
    let m = client_hello::written_hello(version, random, session_id, ciphers, compression, list);
    let z = client_hello::written_hello(version, random, zeros, ciphers, compression, list);
    assert(m.len() == z.len());
    assert(wire::repeated(0, 32) =~= zeros);
    assert(m.subrange(0, 39) =~= z.subrange(0, 39));
    assert(z.subrange(39, 71) =~= zeros);
    assert(wire::after(m, 71) =~= wire::after(z, 71));
    assert(zeroed(m, 39) =~= z.subrange(0, 39) + z.subrange(39, 71) + wire::after(z, 71));
    assert(z =~= z.subrange(0, 39) + z.subrange(39, 71) + wire::after(z, 71));
}

/// Who gets in: the plaintext of the session id holds three bytes of version and one more, which do
/// not matter, the unix time of the client and a short id. The id has to be known, and the two
/// clocks may differ by no more than the allowed time, either way; any time will do where none is
/// set.
pub proof fn lemma_who_gets_in(s: ServerView, version: Seq<u8>, time: u32, id: Seq<u8>, now: int)
    requires
        version.len() == 4,
        id.len() == 8,
    ensures
        admits(
            s,
            version + seq![
                (time as int / 16777216) as u8,
                (time as int / 65536 % 256) as u8,
                (time as int / 256 % 256) as u8,
                (time as int % 256) as u8,
            ] + id,
            now,
        ) <==> s.short_ids.contains(id) && (s.max_time_diff_secs matches Some(d) ==> now - time <= d
            && time - now <= d),
{
    let bytes = seq![
        (time as int / 16777216) as u8,
        (time as int / 65536 % 256) as u8,
        (time as int / 256 % 256) as u8,
        (time as int % 256) as u8,
    ];
    let plain = version + bytes + id;
    assert(plain.subrange(8, 16) =~= id);
    assert(plain[4] == bytes[0] && plain[5] == bytes[1] && plain[6] == bytes[2] && plain[7]
        == bytes[3]);
    assert(wire::u32_at(plain, 4) == time) by {
        let t = time as int;
        assert(t == t / 16777216 * 16777216 + t / 65536 % 256 * 65536 + t / 256 % 256 * 256 + t
            % 256);
    }
}

/// A plaintext of any other length lets nobody in.
pub proof fn lemma_other_plaintexts_are_refused(s: ServerView, plain: Seq<u8>, now: int)
    requires
        plain.len() != 16,
    ensures
        !admits(s, plain, now),
{
}

/// Records that hold no ClientHello are told by their first bytes, in whatever state the rest is:
/// another type than handshake, a length of zero or of more than 16384, and a record that does not
/// fit the limit. Until then as many bytes are asked for as the record header and the record have.
pub proof fn lemma_first_record_decides(b: Seq<u8>, max: int)
    requires
        max >= 5,
    ensures
        b.len() < 5 ==> hello_records(b, max) == Progress::<Seq<u8>, RealityError>::Need(
            5 - b.len(),
        ),
        b.len() >= 5 && b[0] != 22 ==> hello_records(b, max) == Progress::<Seq<u8>, _>::Fail(
            RealityError::NotHandshakeRecord,
        ),
        b.len() >= 5 && b[0] == 22 ==> {
            let len = b[3] as int * 256 + b[4] as int;
            &&& len == 0 || len > 16384 ==> hello_records(b, max) == Progress::<Seq<u8>, _>::Fail(
                RealityError::RecordLength,
            )
            &&& 0 < len <= 16384 && 5 + len > max ==> hello_records(b, max) == Progress::<
                Seq<u8>,
                _,
            >::Fail(RealityError::HelloTooLarge)
            &&& 0 < len <= 16384 && b.len() < 5 + len <= max ==> hello_records(b, max)
                == Progress::<Seq<u8>, RealityError>::Need(5 + len - b.len())
        },
{
}

/// A ClientHello that has come in completely, cut into records however, is authenticated when it is
/// that of a client and forwarded when it is not; what follows it makes no difference, and it is
/// never dropped.
pub proof fn lemma_complete_hellos_are_decided(
    step: RealityStep,
    s: ServerView,
    fragments: Seq<Seq<u8>>,
    rest: Seq<u8>,
)
    requires
        fragments.len() > 0,
        forall|k: int| 0 <= k < fragments.len() ==> 0 < (#[trigger] fragments[k]).len() <= 16384,
        records(fragments).len() <= s.max_client_hello_size,
        joined(fragments).len() >= 4,
        joined(fragments).len() == wire::u24_at(joined(fragments), 1) + 4,
        is_step(step, s, records(fragments) + rest),
    ensures
        may_authenticate(s, joined(fragments)) <==> step is Authenticate,
        !may_authenticate(s, joined(fragments)) <==> step is Forward,
        step matches RealityStep::Authenticate(pending) ==> pending.is_for(s, joined(fragments)),
{
    lemma_fragments(fragments, rest, s.max_client_hello_size as int);
}

/// Whoever does not start with a handshake record, or with one of an impossible length, is a
/// visitor of the target; only a ClientHello that does not fit the limit is dropped.
pub proof fn lemma_visitors_are_forwarded(step: RealityStep, s: ServerView, b: Seq<u8>)
    requires
        s.max_client_hello_size >= 5,
        is_step(step, s, b),
    ensures
        b.len() >= 5 && b[0] != 22 ==> step is Forward,
        b.len() >= 5 && b[0] == 22 && (b[3] as int * 256 + b[4] as int == 0 || b[3] as int * 256
            + b[4] as int > 16384) ==> step is Forward,
        b.len() >= 5 && b[0] == 22 && 0 < b[3] as int * 256 + b[4] as int <= 16384 && b[3] as int
            * 256 + b[4] as int + 5 > s.max_client_hello_size ==> step == RealityStep::Drop(
            RealityError::HelloTooLarge,
        ),
        step matches RealityStep::Drop(error) ==> error == RealityError::HelloTooLarge,
        step matches RealityStep::Read(n) ==> 0 < n && b.len() + n <= s.max_client_hello_size,
        b.len() < 5 ==> step is Read,
{
    lemma_first_record_decides(b, s.max_client_hello_size as int);
    if b.len() < 5 {
        lemma_hello_need(b, 0, Seq::empty(), s.max_client_hello_size as int);
    }
}

proof fn lemma_incomplete_prefix(a: Seq<u8>, b: Seq<u8>)
    requires
        !is_complete(a + b),
    ensures
        !is_complete(a),
{
    let all = a + b;
    if is_complete(a) {
        assert(all[1] == a[1] && all[2] == a[2] && all[3] == a[3]);
        assert(wire::u24_at(all, 1) == wire::u24_at(a, 1));
    }
}

proof fn lemma_records_from(
    before: Seq<u8>,
    message: Seq<u8>,
    fragments: Seq<Seq<u8>>,
    rest: Seq<u8>,
    max: int,
)
    requires
        fragments.len() > 0,
        forall|k: int| 0 <= k < fragments.len() ==> 0 < (#[trigger] fragments[k]).len() <= 16384,
        before.len() + records(fragments).len() <= max,
        !is_complete(message + joined(fragments.drop_last())),
    ensures
        ({
            let whole = message + joined(fragments);
            let end = before.len() + records(fragments).len();
            hello_from(before + records(fragments) + rest, before.len() as int, message, max) == (
            if is_complete(whole) {
                Progress::Done(whole.subrange(0, wire::u24_at(whole, 1) + 4), end as int)
            } else if end >= max {
                Progress::Fail(RealityError::HelloTooLarge)
            } else {
                hello_from(before + records(fragments) + rest, end as int, whole, max)
            })
        }),
    decreases fragments.len(),
{
    let first = fragments[0];
    let more = fragments.subrange(1, fragments.len() as int);
    let b = before + records(fragments) + rest;
    let pos = before.len() as int;
    let end = pos + 5 + first.len() as int;
    let rec = record(first);
    assert(records(fragments) =~= rec + records(more));
    assert(rec.len() == 5 + first.len());
    assert forall|i: int| 0 <= i < rec.len() implies b[pos + i] == rec[i] by {}
    assert(b[pos] == rec[0] && b[pos + 3] == rec[3] && b[pos + 4] == rec[4]);
    assert(wire::u16_at(b, pos + 3) == first.len());
    assert(b.subrange(pos + 5, end) =~= first);
    let all = message + first;
    assert(message + joined(fragments) =~= all + joined(more));
    if more.len() == 0 {
        assert(joined(more) =~= Seq::empty());
        assert(records(more) =~= Seq::empty());
        assert(all + joined(more) =~= all);
    } else {
        let front = fragments.drop_last();
        assert(front[0] == first);
        assert(front.subrange(1, front.len() as int) =~= more.drop_last());
        assert(message + joined(front) =~= all + joined(more.drop_last()));
        lemma_incomplete_prefix(all, joined(more.drop_last()));
        let before2 = before + rec;
        assert(b =~= before2 + records(more) + rest);
        lemma_records_nonempty(more);
        assert forall|k: int| 0 <= k < more.len() implies 0 < (#[trigger] more[k]).len() <= 16384 by {
            assert(more[k] == fragments[k + 1]);
        }
        lemma_records_from(before2, all, more, rest, max);
    }
}

/// A message is read to its end and no further, though its last record may hold more bytes. As long
/// as it is not complete, the next record header is read if it fits the limit, and else the message
/// is too large.
pub proof fn lemma_messages_end_where_they_say(
    fragments: Seq<Seq<u8>>,
    rest: Seq<u8>,
    max: int,
)
    requires
        fragments.len() > 0,
        forall|k: int| 0 <= k < fragments.len() ==> 0 < (#[trigger] fragments[k]).len() <= 16384,
        records(fragments).len() <= max,
        ({
            let front = joined(fragments.drop_last());
            front.len() < 4 || front.len() < front[1] * 65536 + front[2] * 256 + front[3] + 4
        }),
    ensures
        ({
            let all = joined(fragments);
            let n = all[1] * 65536 + all[2] * 256 + all[3] + 4;
            &&& all.len() >= 4 && all.len() >= n ==> hello_records(records(fragments) + rest, max)
                == Progress::<_, RealityError>::Done(
                all.subrange(0, n),
                records(fragments).len() as int,
            )
            &&& (all.len() < 4 || all.len() < n) && records(fragments).len() + 5 <= max
                ==> hello_records(records(fragments), max) == Progress::<Seq<u8>, RealityError>::Need(
                5,
            )
            &&& (all.len() < 4 || all.len() < n) && records(fragments).len() + 5 > max
                ==> hello_records(records(fragments) + rest, max) == Progress::<Seq<u8>, _>::Fail(
                RealityError::HelloTooLarge,
            )
        }),
{
    let empty = Seq::<u8>::empty();
    assert(empty + joined(fragments) =~= joined(fragments));
    assert(empty + joined(fragments.drop_last()) =~= joined(fragments.drop_last()));
    assert(empty + records(fragments) =~= records(fragments));
    assert(empty + records(fragments) + empty =~= records(fragments));
    lemma_records_from(empty, empty, fragments, rest, max);
    lemma_records_from(empty, empty, fragments, empty, max);
}

} // verus!
