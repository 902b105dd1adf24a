//! Configurations are read whole and in one form: no byte may be missing, and none may follow.

use crate::config::snapshot;
use crate::config::snapshot::{
    Config, Credentials, DnsRecord, PresenceService, Relay, SnapshotError, MAX_ADMIN_KEYS, MAX_APPS,
    MAX_BINDINGS, MAX_MEMBERS, MAX_PRESENCE_SERVICES, MAX_RELAYS, MAX_REVOKED_SERIALS,
    MAX_VIRTUAL_DNS_RECORDS, SNAPSHOT_HEAD_LEN, SNAPSHOT_MAGIC_V1, SNAPSHOT_MAGIC_V2,
    SNAPSHOT_TAIL_LEN,
};
use crate::wire;
use vstd::prelude::*;

verus! {

/// What a missing byte is answered.
spec fn missing<T>() -> Result<T, SnapshotError> {
    Err(SnapshotError::MalformedWire)
}

/// The beginning of two parts one after the other.
proof fn lemma_cut(a: Seq<u8>, b: Seq<u8>, n: int)
    requires
        0 <= n <= a.len() + b.len(),
    ensures
        n < a.len() ==> (a + b).take(n) == a.take(n),
        n >= a.len() ==> (a + b).take(n) == a + b.take(n - a.len()),
{
    if n < a.len() {
        assert((a + b).take(n) =~= a.take(n));
    } else {
        assert((a + b).take(n) =~= a + b.take(n - a.len()));
    }
}

/// Whether no proper beginning of an encoding is read.
spec fn needs_all<T>(
    enc: spec_fn(T) -> Seq<u8>,
    item: spec_fn(Seq<u8>) -> Result<(T, Seq<u8>), SnapshotError>,
    x: T,
) -> bool {
    forall|n: int|
        0 <= n < enc(x).len() ==> item(#[trigger] enc(x).take(n)) == missing::<(T, Seq<u8>)>()
}

/// Whether an encoding is read back, whatever follows it.
spec fn reads_back<T>(
    enc: spec_fn(T) -> Seq<u8>,
    item: spec_fn(Seq<u8>) -> Result<(T, Seq<u8>), SnapshotError>,
    x: T,
) -> bool {
    forall|tail: Seq<u8>|
        item(#[trigger] (enc(x) + tail)) == Ok::<(T, Seq<u8>), SnapshotError>((x, tail))
}

proof fn lemma_items_cut<T>(
    enc: spec_fn(T) -> Seq<u8>,
    item: spec_fn(Seq<u8>) -> Result<(T, Seq<u8>), SnapshotError>,
    s: Seq<T>,
    rest: Seq<u8>,
    n: int,
)
    requires
        forall|i: int| 0 <= i < s.len() ==> reads_back(enc, item, #[trigger] s[i]),
        forall|i: int| 0 <= i < s.len() ==> needs_all(enc, item, #[trigger] s[i]),
        0 <= n <= wire::items_bytes(enc, s).len() + rest.len(),
    ensures
        p_items_cut(enc, item, s, rest, n),
    decreases s.len(),
{
    let body = wire::items_bytes(enc, s);
    lemma_cut(body, rest, n);
    assert forall|i: int, tail: Seq<u8>| 0 <= i < s.len() implies item(
        #[trigger] (enc(s[i]) + tail),
    ) == Ok::<(T, Seq<u8>), SnapshotError>((s[i], tail)) by {
        assert(reads_back(enc, item, s[i]));
    }
    if n >= body.len() {
        wire::lemma_items_round_trip(enc, item, s, rest.take(n - body.len()));
    } else {
        let init = s.drop_last();
        let last = enc(s.last());
        assert forall|i: int| 0 <= i < init.len() implies reads_back(enc, item, #[trigger] init[i])
            && needs_all(enc, item, init[i]) by {
            assert(init[i] == s[i]);
        }
        lemma_items_cut(enc, item, init, last, n);
        assert(s.last() == s[s.len() - 1]);
        assert(needs_all(enc, item, s.last()));
        assert(body == wire::items_bytes(enc, init) + last);
    }
}

/// What becomes of the beginning of a list and of what follows it.
spec fn p_items_cut<T>(
    enc: spec_fn(T) -> Seq<u8>,
    item: spec_fn(Seq<u8>) -> Result<(T, Seq<u8>), SnapshotError>,
    s: Seq<T>,
    rest: Seq<u8>,
    n: int,
) -> bool {
    let body = wire::items_bytes(enc, s);
    wire::p_items(item, (body + rest).take(n), s.len()) == if n < body.len() {
        missing::<(Seq<T>, Seq<u8>)>()
    } else {
        Ok((s, rest.take(n - body.len())))
    }
}

proof fn lemma_list_cut<T>(
    enc: spec_fn(T) -> Seq<u8>,
    item: spec_fn(Seq<u8>) -> Result<(T, Seq<u8>), SnapshotError>,
    s: Seq<T>,
    maximum: int,
    rest: Seq<u8>,
    n: int,
)
    requires
        s.len() <= maximum <= 0xffff,
        forall|i: int| 0 <= i < s.len() ==> reads_back(enc, item, #[trigger] s[i]),
        forall|i: int| 0 <= i < s.len() ==> needs_all(enc, item, #[trigger] s[i]),
        0 <= n <= snapshot::list_bytes(enc, s).len() + rest.len(),
    ensures
        ({
            let all = snapshot::list_bytes(enc, s);
            snapshot::p_list(item, (all + rest).take(n), maximum) == if n < all.len() {
                missing::<(Seq<T>, Seq<u8>)>()
            } else {
                Ok((s, rest.take(n - all.len())))
            }
        }),
{
    let count = wire::be(s.len(), 2);
    let body = wire::items_bytes(enc, s);
    wire::lemma_be_len(s.len(), 2);
    wire::lemma_assoc(count, body, rest);
    lemma_cut(count, body + rest, n);
    if n >= 2 {
        lemma_items_cut(enc, item, s, rest, n - 2);
        wire::lemma_take_u16(s.len() as u16, (body + rest).take(n - 2));
    }
}

proof fn lemma_blob_cut(blob: Seq<u8>, n: int)
    requires
        snapshot::blob_ok(blob),
        0 <= n < snapshot::blob_bytes(blob).len(),
    ensures
        snapshot::p_blob(snapshot::blob_bytes(blob).take(n)) == missing::<(Seq<u8>, Seq<u8>)>(),
{
    wire::lemma_be_len(blob.len(), 2);
    lemma_cut(wire::be(blob.len(), 2), blob, n);
    if n >= 2 {
        wire::lemma_take_u16(blob.len() as u16, blob.take(n - 2));
    }
}

proof fn lemma_string_cut(text: Seq<char>, n: int)
    requires
        snapshot::url_ok(text),
        0 <= n < snapshot::string_bytes(text).len(),
    ensures
        snapshot::p_string(snapshot::string_bytes(text).take(n)) == missing::<
            (Seq<char>, Seq<u8>),
        >(),
{
    let blob = wire::utf8(text);
    wire::lemma_be_len(blob.len(), 2);
    lemma_cut(wire::be(blob.len(), 2), blob, n);
    if n >= 2 {
        wire::lemma_take_u16(blob.len() as u16, blob.take(n - 2));
    }
}

proof fn lemma_dns_cut(d: DnsRecord, n: int)
    requires
        snapshot::url_ok(d.name),
        crate::virtual_name::name_ok(wire::utf8(d.name)),
        0 <= n < snapshot::dns_bytes(d).len(),
    ensures
        snapshot::p_dns(snapshot::dns_bytes(d).take(n)) == missing::<(DnsRecord, Seq<u8>)>(),
{
    let name = snapshot::string_bytes(d.name);
    let expires = wire::be(d.expires_at_ms as nat, 8);
    wire::lemma_be_len(d.expires_at_ms as nat, 8);
    lemma_cut(name, d.app_addr@ + expires, n);
    if n < name.len() {
        lemma_string_cut(d.name, n);
    } else {
        let m = n - name.len();
        snapshot::lemma_string_round_trip(d.name, (d.app_addr@ + expires).take(m));
        lemma_cut(d.app_addr@, expires, m);
        if m >= 32 {
            wire::lemma_take_array(d.app_addr.0, expires.take(m - 32));
        }
    }
}

proof fn lemma_relay_cut(d: Relay, n: int)
    requires
        snapshot::url_ok(d.url),
        0 <= n < snapshot::relay_bytes(d).len(),
    ensures
        snapshot::p_relay(snapshot::relay_bytes(d).take(n)) == missing::<(Relay, Seq<u8>)>(),
{
    let url = snapshot::string_bytes(d.url);
    let roles = wire::be(d.roles.0 as nat, 4);
    let expires = wire::be(d.expires_at_ms as nat, 8);
    wire::lemma_be_len(d.roles.0 as nat, 4);
    wire::lemma_be_len(d.expires_at_ms as nat, 8);
    lemma_cut(d.endpoint_id@, url + (roles + expires), n);
    if n >= 32 {
        let m = n - 32;
        wire::lemma_take_array(d.endpoint_id, (url + (roles + expires)).take(m));
        lemma_cut(url, roles + expires, m);
        if m < url.len() {
            lemma_string_cut(d.url, m);
        } else {
            let k = m - url.len();
            snapshot::lemma_string_round_trip(d.url, (roles + expires).take(k));
            lemma_cut(roles, expires, k);
            if k >= 4 {
                wire::lemma_take_u32(d.roles.0, expires.take(k - 4));
            }
        }
    }
}

proof fn lemma_service_cut(d: PresenceService, n: int)
    requires
        snapshot::url_ok(d.url),
        0 <= n < snapshot::service_bytes(d).len(),
    ensures
        snapshot::p_service(snapshot::service_bytes(d).take(n)) == missing::<
            (PresenceService, Seq<u8>),
        >(),
{
    let url = snapshot::string_bytes(d.url);
    let expires = wire::be(d.expires_at_ms as nat, 8);
    wire::lemma_be_len(d.expires_at_ms as nat, 8);
    lemma_cut(d.endpoint_id@, url + expires, n);
    if n >= 32 {
        let m = n - 32;
        wire::lemma_take_array(d.endpoint_id, (url + expires).take(m));
        lemma_cut(url, expires, m);
        if m < url.len() {
            lemma_string_cut(d.url, m);
        } else {
            snapshot::lemma_string_round_trip(d.url, expires.take(m - url.len()));
        }
    }
}

proof fn lemma_blobs_cut(s: Seq<Seq<u8>>, maximum: int, rest: Seq<u8>, n: int)
    requires
        snapshot::blobs_ok(s),
        s.len() <= maximum <= 0xffff,
        0 <= n <= snapshot::blobs_bytes(s).len() + rest.len(),
    ensures
        ({
            let all = snapshot::blobs_bytes(s);
            snapshot::p_blobs((all + rest).take(n), maximum) == if n < all.len() {
                missing::<(Seq<Seq<u8>>, Seq<u8>)>()
            } else {
                Ok((s, rest.take(n - all.len())))
            }
        }),
{
    let enc = snapshot::blob_enc();
    let dec = snapshot::blob_dec();
    assert forall|i: int| 0 <= i < s.len() implies reads_back(enc, dec, #[trigger] s[i])
        && needs_all(enc, dec, s[i]) by {
        assert forall|tail: Seq<u8>| dec(#[trigger] (enc(s[i]) + tail)) == Ok::<
            (Seq<u8>, Seq<u8>),
            SnapshotError,
        >((s[i], tail)) by {
            snapshot::lemma_blob_round_trip(s[i], tail);
        }
        assert forall|n: int| 0 <= n < enc(s[i]).len() implies dec(#[trigger] enc(s[i]).take(n))
            == missing::<(Seq<u8>, Seq<u8>)>() by {
            lemma_blob_cut(s[i], n);
        }
    }
    lemma_list_cut(enc, dec, s, maximum, rest, n);
}

proof fn lemma_serials_cut(s: Seq<u64>, rest: Seq<u8>, n: int)
    requires
        s.len() <= MAX_REVOKED_SERIALS,
        0 <= n <= snapshot::serials_bytes(s).len() + rest.len(),
    ensures
        ({
            let all = snapshot::serials_bytes(s);
            snapshot::p_list(
                snapshot::serial_dec(),
                (all + rest).take(n),
                MAX_REVOKED_SERIALS as int,
            ) == if n < all.len() {
                missing::<(Seq<u64>, Seq<u8>)>()
            } else {
                Ok((s, rest.take(n - all.len())))
            }
        }),
{
    let enc = snapshot::serial_enc();
    let dec = snapshot::serial_dec();
    assert forall|i: int| 0 <= i < s.len() implies reads_back(enc, dec, #[trigger] s[i])
        && needs_all(enc, dec, s[i]) by {
        wire::lemma_be_len(s[i] as nat, 8);
        assert forall|tail: Seq<u8>| dec(#[trigger] (enc(s[i]) + tail)) == Ok::<
            (u64, Seq<u8>),
            SnapshotError,
        >((s[i], tail)) by {
            wire::lemma_take_u64(s[i], tail);
        }
    }
    lemma_list_cut(enc, dec, s, MAX_REVOKED_SERIALS as int, rest, n);
}

/// The credentials of a configuration.
spec fn credentials(c: Config) -> Credentials {
    Credentials {
        admin_keys: c.admin_keys,
        members: c.members,
        endpoint_bindings: c.endpoint_bindings,
        revoked_serials: c.revoked_serials,
        apps: c.apps,
        app_bindings: c.app_bindings,
    }
}

proof fn lemma_credentials_cut(c: Config, rest: Seq<u8>, n: int)
    requires
        snapshot::counts_ok(c),
        snapshot::credentials_ok(c),
        0 <= n <= snapshot::credentials_bytes(c, rest).len(),
    ensures
        ({
            let all = snapshot::credentials_bytes(c, rest);
            let end = n - (all.len() - rest.len());
            &&& rest.len() <= all.len()
            &&& snapshot::p_credentials(all.take(n)) == if end < 0 {
                missing::<(Credentials, Seq<u8>)>()
            } else {
                Ok((credentials(c), rest.take(end)))
            }
        }),
{
    let b0 = snapshot::blobs_bytes(c.admin_keys);
    let b1 = snapshot::blobs_bytes(c.members);
    let b2 = snapshot::blobs_bytes(c.endpoint_bindings);
    let b3 = snapshot::serials_bytes(c.revoked_serials);
    let b4 = snapshot::blobs_bytes(c.apps);
    let b5 = snapshot::blobs_bytes(c.app_bindings);
    let t5 = b5 + rest;
    let t4 = b4 + t5;
    let t3 = b3 + t4;
    let t2 = b2 + t3;
    let t1 = b1 + t2;
    lemma_blobs_cut(c.admin_keys, MAX_ADMIN_KEYS as int, t1, n);
    let n1 = n - b0.len();
    if n1 >= 0 {
        lemma_blobs_cut(c.members, MAX_MEMBERS as int, t2, n1);
        let n2 = n1 - b1.len();
        if n2 >= 0 {
            lemma_blobs_cut(c.endpoint_bindings, MAX_MEMBERS as int, t3, n2);
            let n3 = n2 - b2.len();
            if n3 >= 0 {
                lemma_serials_cut(c.revoked_serials, t4, n3);
                let n4 = n3 - b3.len();
                if n4 >= 0 {
                    lemma_blobs_cut(c.apps, MAX_APPS as int, t5, n4);
                    let n5 = n4 - b4.len();
                    if n5 >= 0 {
                        lemma_blobs_cut(c.app_bindings, MAX_BINDINGS as int, rest, n5);
                    }
                }
            }
        }
    }
}

/// The name records of a configuration, where the format has them.
spec fn names_bytes(c: Config, named: bool) -> Seq<u8> {
    if named {
        snapshot::list_bytes(snapshot::dns_enc(), c.virtual_dns)
    } else {
        Seq::empty()
    }
}

/// Whether a configuration can be written in a format.
pub open spec fn writable(c: Config, named: bool) -> bool {
    &&& snapshot::shape_verdict(c) is Ok
    &&& snapshot::urls_ok(c)
    &&& if named {
        snapshot::names_ok(c)
    } else {
        c.virtual_dns.len() == 0
    }
}

/// The encoding of a configuration in the current format, or in the one that has no virtual names.
pub open spec fn written(c: Config, named: bool) -> Seq<u8> {
    if named {
        snapshot::config_bytes(c)
    } else {
        snapshot::legacy_config_bytes(c)
    }
}

proof fn lemma_names_cut(c: Config, named: bool, rest: Seq<u8>, n: int)
    requires
        writable(c, named),
        0 <= n <= names_bytes(c, named).len() + rest.len(),
    ensures
        ({
            let all = names_bytes(c, named);
            snapshot::p_names((all + rest).take(n), named) == if n < all.len() {
                missing::<(Seq<DnsRecord>, Seq<u8>)>()
            } else {
                Ok((c.virtual_dns, rest.take(n - all.len())))
            }
        }),
{
    let s = c.virtual_dns;
    if named {
        let enc = snapshot::dns_enc();
        let dec = snapshot::dns_dec();
        assert forall|i: int| 0 <= i < s.len() implies reads_back(enc, dec, #[trigger] s[i])
            && needs_all(enc, dec, s[i]) by {
            assert forall|tail: Seq<u8>| dec(#[trigger] (enc(s[i]) + tail)) == Ok::<
                (DnsRecord, Seq<u8>),
                SnapshotError,
            >((s[i], tail)) by {
                snapshot::lemma_dns_round_trip(s[i], tail);
            }
            assert forall|n: int| 0 <= n < enc(s[i]).len() implies dec(
                #[trigger] enc(s[i]).take(n),
            ) == missing::<(DnsRecord, Seq<u8>)>() by {
                lemma_dns_cut(s[i], n);
            }
        }
        lemma_list_cut(enc, dec, s, MAX_VIRTUAL_DNS_RECORDS as int, rest, n);
    } else {
        assert(s =~= Seq::<DnsRecord>::empty());
        assert(names_bytes(c, named) + rest =~= rest);
    }
}

proof fn lemma_relays_cut(c: Config, rest: Seq<u8>, n: int)
    requires
        snapshot::counts_ok(c),
        snapshot::urls_ok(c),
        0 <= n <= snapshot::list_bytes(snapshot::relay_enc(), c.relays).len() + rest.len(),
    ensures
        ({
            let all = snapshot::list_bytes(snapshot::relay_enc(), c.relays);
            snapshot::p_list(snapshot::relay_dec(), (all + rest).take(n), MAX_RELAYS as int) == if n
                < all.len() {
                missing::<(Seq<Relay>, Seq<u8>)>()
            } else {
                Ok((c.relays, rest.take(n - all.len())))
            }
        }),
{
    let s = c.relays;
    let enc = snapshot::relay_enc();
    let dec = snapshot::relay_dec();
    assert forall|i: int| 0 <= i < s.len() implies reads_back(enc, dec, #[trigger] s[i])
        && needs_all(enc, dec, s[i]) by {
        assert forall|tail: Seq<u8>| dec(#[trigger] (enc(s[i]) + tail)) == Ok::<
            (Relay, Seq<u8>),
            SnapshotError,
        >((s[i], tail)) by {
            snapshot::lemma_relay_round_trip(s[i], tail);
        }
        assert forall|n: int| 0 <= n < enc(s[i]).len() implies dec(#[trigger] enc(s[i]).take(n))
            == missing::<(Relay, Seq<u8>)>() by {
            lemma_relay_cut(s[i], n);
        }
    }
    lemma_list_cut(enc, dec, s, MAX_RELAYS as int, rest, n);
}

proof fn lemma_services_cut(c: Config, rest: Seq<u8>, n: int)
    requires
        snapshot::counts_ok(c),
        snapshot::urls_ok(c),
        0 <= n <= snapshot::list_bytes(snapshot::service_enc(), c.presence_services).len()
            + rest.len(),
    ensures
        ({
            let all = snapshot::list_bytes(snapshot::service_enc(), c.presence_services);
            snapshot::p_list(
                snapshot::service_dec(),
                (all + rest).take(n),
                MAX_PRESENCE_SERVICES as int,
            ) == if n < all.len() {
                missing::<(Seq<PresenceService>, Seq<u8>)>()
            } else {
                Ok((c.presence_services, rest.take(n - all.len())))
            }
        }),
{
    let s = c.presence_services;
    let enc = snapshot::service_enc();
    let dec = snapshot::service_dec();
    assert forall|i: int| 0 <= i < s.len() implies reads_back(enc, dec, #[trigger] s[i])
        && needs_all(enc, dec, s[i]) by {
        assert forall|tail: Seq<u8>| dec(#[trigger] (enc(s[i]) + tail)) == Ok::<
            (PresenceService, Seq<u8>),
            SnapshotError,
        >((s[i], tail)) by {
            snapshot::lemma_service_round_trip(s[i], tail);
        }
        assert forall|n: int| 0 <= n < enc(s[i]).len() implies dec(#[trigger] enc(s[i]).take(n))
            == missing::<(PresenceService, Seq<u8>)>() by {
            lemma_service_cut(s[i], n);
        }
    }
    lemma_list_cut(enc, dec, s, MAX_PRESENCE_SERVICES as int, rest, n);
}

/// The encoding of a configuration behind the magic, up to an end.
spec fn body(c: Config, named: bool, end: Seq<u8>) -> Seq<u8> {
    snapshot::head_bytes(c) + snapshot::credentials_bytes(
        c,
        names_bytes(c, named) + (snapshot::list_bytes(snapshot::relay_enc(), c.relays) + (
        snapshot::list_bytes(snapshot::service_enc(), c.presence_services) + end)),
    )
}

/// What is behind the magic is read only where its end has its length.
proof fn lemma_body_cut(c: Config, named: bool, end: Seq<u8>, n: int)
    requires
        writable(c, named),
        0 <= n <= body(c, named, end).len(),
        n - (body(c, named, end).len() - end.len()) != SNAPSHOT_TAIL_LEN,
    ensures
        end.len() <= body(c, named, end).len(),
        snapshot::p_config(body(c, named, end).take(n), named) == missing::<Config>(),
{
    let services = snapshot::list_bytes(snapshot::service_enc(), c.presence_services);
    let relays = snapshot::list_bytes(snapshot::relay_enc(), c.relays);
    let names = names_bytes(c, named);
    let t3 = services + end;
    let t2 = relays + t3;
    let t1 = names + t2;
    let lists = snapshot::credentials_bytes(c, t1);
    let head = snapshot::head_bytes(c);
    wire::lemma_be_len(c.epoch as nat, 8);
    wire::lemma_be_len(c.revision as nat, 8);
    wire::lemma_be_len(c.issued_at_ms as nat, 8);
    wire::lemma_be_len(c.expires_at_ms as nat, 8);
    assert(head.len() == SNAPSHOT_HEAD_LEN);
    lemma_cut(head, lists, n);
    lemma_credentials_cut(c, t1, if n < head.len() {
        0
    } else {
        n - head.len()
    });
    if n >= head.len() {
        let n0 = n - head.len();
        snapshot::lemma_head_fields(c, lists.take(n0));
        let n1 = n0 - (lists.len() - t1.len());
        if n1 >= 0 {
            lemma_names_cut(c, named, t2, n1);
            let n2 = n1 - names.len();
            if n2 >= 0 {
                lemma_relays_cut(c, t3, n2);
                let n3 = n2 - relays.len();
                if n3 >= 0 {
                    lemma_services_cut(c, end, n3);
                }
            }
        }
    }
}

/// The encoding of a configuration is the magic of its format and the rest.
proof fn lemma_written(c: Config, named: bool)
    ensures
        written(c, named) == (if named {
            SNAPSHOT_MAGIC_V2@
        } else {
            SNAPSHOT_MAGIC_V1@
        }) + body(c, named, snapshot::tail_bytes(c)),
{
    if !named {
        let rest = snapshot::descriptors_bytes(c);
        assert(Seq::<u8>::empty() + rest =~= rest);
    }
}

/// What is read behind a magic.
proof fn lemma_behind_magic(r: Seq<u8>, named: bool)
    ensures
        ({
            let magic = if named {
                SNAPSHOT_MAGIC_V2@
            } else {
                SNAPSHOT_MAGIC_V1@
            };
            snapshot::read_config(magic + r) == snapshot::p_config(r, named)
        }),
{
    let magic = if named {
        SNAPSHOT_MAGIC_V2@
    } else {
        SNAPSHOT_MAGIC_V1@
    };
    let b = magic + r;
    assert(b.subrange(0, 8) =~= magic);
    assert(b.subrange(8, b.len() as int) =~= r);
    assert(SNAPSHOT_MAGIC_V1@[7] != SNAPSHOT_MAGIC_V2@[7]);
    assert(b.subrange(0, 8)[7] == magic[7]);
}

/// A written configuration of which the end is missing is refused as malformed, wherever it ends.
pub proof fn law_cut_config_is_malformed(c: Config, named: bool, n: int)
    requires
        writable(c, named),
        0 <= n < written(c, named).len(),
    ensures
        snapshot::read_config(written(c, named).take(n)) == Err::<Config, SnapshotError>(
            SnapshotError::MalformedWire,
        ),
{
    let magic = if named {
        SNAPSHOT_MAGIC_V2@
    } else {
        SNAPSHOT_MAGIC_V1@
    };
    let end = snapshot::tail_bytes(c);
    let r = body(c, named, end);
    lemma_written(c, named);
    lemma_cut(magic, r, n);
    if n >= 8 {
        lemma_behind_magic(r.take(n - 8), named);
        snapshot::lemma_tail_fields(c);
        lemma_body_cut(c, named, end, n - 8);
    }
}

/// A written configuration that is followed by anything is refused as malformed.
pub proof fn law_extended_config_is_malformed(c: Config, named: bool, more: Seq<u8>)
    requires
        writable(c, named),
        more.len() > 0,
    ensures
        snapshot::read_config(written(c, named) + more) == Err::<Config, SnapshotError>(
            SnapshotError::MalformedWire,
        ),
{
    let magic = if named {
        SNAPSHOT_MAGIC_V2@
    } else {
        SNAPSHOT_MAGIC_V1@
    };
    let end = snapshot::tail_bytes(c);
    let r = body(c, named, end);
    let longer = body(c, named, end + more);
    lemma_written(c, named);
    snapshot::lemma_tail_fields(c);
    assert(r + more == longer) by {
        let services = snapshot::list_bytes(snapshot::service_enc(), c.presence_services);
        let relays = snapshot::list_bytes(snapshot::relay_enc(), c.relays);
        let names = names_bytes(c, named);
        let t3 = services + end;
        let t2 = relays + t3;
        let t1 = names + t2;
        wire::lemma_assoc(services, end, more);
        wire::lemma_assoc(relays, t3, more);
        wire::lemma_assoc(names, t2, more);
        let b5 = snapshot::blobs_bytes(c.app_bindings);
        let b4 = snapshot::blobs_bytes(c.apps);
        let b3 = snapshot::serials_bytes(c.revoked_serials);
        let b2 = snapshot::blobs_bytes(c.endpoint_bindings);
        let b1 = snapshot::blobs_bytes(c.members);
        let b0 = snapshot::blobs_bytes(c.admin_keys);
        wire::lemma_assoc(b5, t1, more);
        wire::lemma_assoc(b4, b5 + t1, more);
        wire::lemma_assoc(b3, b4 + (b5 + t1), more);
        wire::lemma_assoc(b2, b3 + (b4 + (b5 + t1)), more);
        wire::lemma_assoc(b1, b2 + (b3 + (b4 + (b5 + t1))), more);
        wire::lemma_assoc(b0, b1 + (b2 + (b3 + (b4 + (b5 + t1)))), more);
        wire::lemma_assoc(
            snapshot::head_bytes(c),
            snapshot::credentials_bytes(c, t1),
            more,
        );
    }
    wire::lemma_assoc(magic, r, more);
    lemma_behind_magic(longer, named);
    lemma_body_cut(c, named, end + more, longer.len() as int);
    assert(longer.take(longer.len() as int) =~= longer);
}

/// Every item of a list that was read is one that can be read.
proof fn lemma_items_each<T>(
    item: spec_fn(Seq<u8>) -> Result<(T, Seq<u8>), SnapshotError>,
    ok: spec_fn(T) -> bool,
    r: Seq<u8>,
    n: nat,
)
    requires
        forall|r: Seq<u8>| #[trigger] item(r) is Ok ==> ok(item(r)->Ok_0.0),
    ensures
        wire::p_items(item, r, n) matches Ok((s, rest)) ==> forall|i: int|
            0 <= i < s.len() ==> ok(#[trigger] s[i]),
    decreases n,
{
    if n > 0 {
        lemma_items_each(item, ok, r, (n - 1) as nat);
    }
}

/// A list that was read is the list that was written, where each of its items is.
proof fn lemma_list_canonical<T>(
    enc: spec_fn(T) -> Seq<u8>,
    item: spec_fn(Seq<u8>) -> Result<(T, Seq<u8>), SnapshotError>,
    ok: spec_fn(T) -> bool,
    r: Seq<u8>,
    maximum: int,
)
    requires
        forall|r: Seq<u8>| #[trigger]
            item(r) is Ok ==> ok(item(r)->Ok_0.0) && r == enc(item(r)->Ok_0.0) + item(r)->Ok_0.1,
    ensures
        snapshot::p_list(item, r, maximum) matches Ok((s, rest)) ==> {
            &&& s.len() <= maximum
            &&& r == snapshot::list_bytes(enc, s) + rest
            &&& forall|i: int| 0 <= i < s.len() ==> ok(#[trigger] s[i])
        },
{
    if snapshot::p_list(item, r, maximum) is Ok {
        let (s, rest) = snapshot::p_list(item, r, maximum)->Ok_0;
        let (n, r1) = snapshot::p_count(r, maximum)->Ok_0;
        wire::lemma_taken(r);
        wire::lemma_items_canonical(enc, item, r1, n);
        lemma_items_each(item, ok, r1, n);
        wire::lemma_assoc(wire::be(n, 2), wire::items_bytes(enc, s), rest);
    }
}

proof fn lemma_string_canonical(r: Seq<u8>)
    ensures
        snapshot::p_string(r) matches Ok((text, rest)) ==> snapshot::url_ok(text) && r
            == snapshot::string_bytes(text) + rest,
{
    if snapshot::p_string(r) is Ok {
        let (text, rest) = snapshot::p_string(r)->Ok_0;
        let (n, r1) = wire::take_u16(r)->Some_0;
        let (x, r2) = wire::take_bytes(r1, n as int)->Some_0;
        wire::lemma_taken(r);
        wire::lemma_taken_bytes(r1, n as int);
        vstd::utf8::decode_utf8_encode_utf8(x);
        assert(wire::utf8(text) == x);
        wire::lemma_assoc(wire::be(n as nat, 2), x, rest);
    }
}

proof fn lemma_blob_canonical(r: Seq<u8>)
    ensures
        snapshot::p_blob(r) matches Ok((x, rest)) ==> snapshot::blob_ok(x) && r
            == snapshot::blob_bytes(x) + rest,
{
    if snapshot::p_blob(r) is Ok {
        let (x, rest) = snapshot::p_blob(r)->Ok_0;
        let (n, r1) = wire::take_u16(r)->Some_0;
        wire::lemma_taken(r);
        wire::lemma_taken_bytes(r1, n as int);
        wire::lemma_assoc(wire::be(n as nat, 2), x, rest);
    }
}

proof fn lemma_taken_array<const N: usize>(r: Seq<u8>)
    ensures
        wire::take_array::<N>(r) matches Some((x, rest)) ==> r == x@ + rest,
{
    if N <= r.len() {
        wire::lemma_array_exists::<N>(r.subrange(0, N as int));
        assert(r =~= r.subrange(0, N as int) + r.subrange(N as int, r.len() as int));
    }
}

/// Whether a name record can be written.
spec fn dns_ok(d: DnsRecord) -> bool {
    snapshot::url_ok(d.name) && crate::virtual_name::name_ok(wire::utf8(d.name))
}

proof fn lemma_dns_canonical(r: Seq<u8>)
    ensures
        snapshot::p_dns(r) matches Ok((d, rest)) ==> dns_ok(d) && r == snapshot::dns_bytes(d)
            + rest,
{
    if snapshot::p_dns(r) is Ok {
        let (d, rest) = snapshot::p_dns(r)->Ok_0;
        let (name, r1) = snapshot::p_string(r)->Ok_0;
        let (app, r2) = wire::take_array::<32>(r1)->Some_0;
        let expires = wire::be(d.expires_at_ms as nat, 8);
        lemma_string_canonical(r);
        lemma_taken_array::<32>(r1);
        wire::lemma_taken(r2);
        wire::lemma_assoc(app@, expires, rest);
        wire::lemma_assoc(snapshot::string_bytes(name), app@ + expires, rest);
    }
}

proof fn lemma_relay_canonical(r: Seq<u8>)
    ensures
        snapshot::p_relay(r) matches Ok((d, rest)) ==> snapshot::url_ok(d.url) && r
            == snapshot::relay_bytes(d) + rest,
{
    if snapshot::p_relay(r) is Ok {
        let (d, rest) = snapshot::p_relay(r)->Ok_0;
        let (id, r1) = wire::take_array::<32>(r)->Some_0;
        let (url, r2) = snapshot::p_string(r1)->Ok_0;
        let (roles, r3) = wire::take_u32(r2)->Some_0;
        let a = snapshot::string_bytes(url);
        let b = wire::be(roles as nat, 4);
        let e = wire::be(d.expires_at_ms as nat, 8);
        lemma_taken_array::<32>(r);
        lemma_string_canonical(r1);
        wire::lemma_taken(r2);
        wire::lemma_taken(r3);
        wire::lemma_assoc(b, e, rest);
        wire::lemma_assoc(a, b + e, rest);
        wire::lemma_assoc(id@, a + (b + e), rest);
    }
}

proof fn lemma_service_canonical(r: Seq<u8>)
    ensures
        snapshot::p_service(r) matches Ok((d, rest)) ==> snapshot::url_ok(d.url) && r
            == snapshot::service_bytes(d) + rest,
{
    if snapshot::p_service(r) is Ok {
        let (d, rest) = snapshot::p_service(r)->Ok_0;
        let (id, r1) = wire::take_array::<32>(r)->Some_0;
        let (url, r2) = snapshot::p_string(r1)->Ok_0;
        let a = snapshot::string_bytes(url);
        let e = wire::be(d.expires_at_ms as nat, 8);
        lemma_taken_array::<32>(r);
        lemma_string_canonical(r1);
        wire::lemma_taken(r2);
        wire::lemma_assoc(a, e, rest);
        wire::lemma_assoc(id@, a + e, rest);
    }
}

proof fn lemma_blobs_canonical(r: Seq<u8>, maximum: int)
    ensures
        snapshot::p_blobs(r, maximum) matches Ok((s, rest)) ==> {
            &&& s.len() <= maximum
            &&& snapshot::blobs_ok(s)
            &&& r == snapshot::blobs_bytes(s) + rest
        },
{
    let dec = snapshot::blob_dec();
    let ok = |x: Seq<u8>| snapshot::blob_ok(x);
    assert forall|r: Seq<u8>| #[trigger] dec(r) is Ok implies ok(dec(r)->Ok_0.0) && r
        == snapshot::blob_enc()(dec(r)->Ok_0.0) + dec(r)->Ok_0.1 by {
        lemma_blob_canonical(r);
    }
    lemma_list_canonical(snapshot::blob_enc(), dec, ok, r, maximum);
    if snapshot::p_blobs(r, maximum) is Ok {
        let (s, rest) = snapshot::p_blobs(r, maximum)->Ok_0;
        assert forall|i: int| 0 <= i < s.len() implies snapshot::blob_ok(#[trigger] s[i]) by {
            assert(ok(s[i]));
        }
    }
}

/// A configuration that holds these credentials and some other things.
proof fn lemma_credentials_canonical(r: Seq<u8>, c: Config)
    requires
        snapshot::p_credentials(r) is Ok,
        snapshot::p_credentials(r)->Ok_0.0 == credentials(c),
    ensures
        snapshot::credentials_ok(c),
        r == snapshot::credentials_bytes(c, snapshot::p_credentials(r)->Ok_0.1),
{
    lemma_blobs_canonical(r, MAX_ADMIN_KEYS as int);
    let r1 = snapshot::p_blobs(r, MAX_ADMIN_KEYS as int)->Ok_0.1;
    lemma_blobs_canonical(r1, MAX_MEMBERS as int);
    let r2 = snapshot::p_blobs(r1, MAX_MEMBERS as int)->Ok_0.1;
    lemma_blobs_canonical(r2, MAX_MEMBERS as int);
    let r3 = snapshot::p_blobs(r2, MAX_MEMBERS as int)->Ok_0.1;
    let dec = snapshot::serial_dec();
    assert forall|r: Seq<u8>| #[trigger] dec(r) is Ok implies r == snapshot::serial_enc()(
        dec(r)->Ok_0.0,
    ) + dec(r)->Ok_0.1 by {
        wire::lemma_taken(r);
    }
    lemma_list_canonical(
        snapshot::serial_enc(),
        dec,
        |x: u64| true,
        r3,
        MAX_REVOKED_SERIALS as int,
    );
    let r4 = snapshot::p_list(dec, r3, MAX_REVOKED_SERIALS as int)->Ok_0.1;
    lemma_blobs_canonical(r4, MAX_APPS as int);
    let r5 = snapshot::p_blobs(r4, MAX_APPS as int)->Ok_0.1;
    lemma_blobs_canonical(r5, MAX_BINDINGS as int);
}

proof fn lemma_fixed_fields(r: Seq<u8>, t: Seq<u8>, c: Config)
    requires
        r.len() >= SNAPSHOT_HEAD_LEN,
        t.len() == SNAPSHOT_TAIL_LEN,
        c.network_id.0 == wire::array_at::<32>(r, 0),
        c.epoch == wire::u64_at(r, 32),
        c.revision == wire::u64_at(r, 40),
        c.previous_hash == wire::array_at::<32>(r, 48),
        c.issued_at_ms == wire::u64_at(r, 80),
        c.expires_at_ms == wire::u64_at(r, 88),
        c.epoch_secrets.presence_index_seed == wire::array_at::<32>(t, 0),
        c.epoch_secrets.presence_encryption_seed == wire::array_at::<32>(t, 32),
        c.epoch_secrets.lan_discovery_seed == wire::array_at::<32>(t, 64),
        c.epoch_secrets.relay_access_seed == wire::array_at::<32>(t, 96),
        c.policies.flags == wire::u32_at(t, 128),
        c.policies.max_members == wire::u16_at(t, 132),
        c.policies.max_services_per_binding == wire::u16_at(t, 134),
    ensures
        r == snapshot::head_bytes(c) + r.subrange(SNAPSHOT_HEAD_LEN as int, r.len() as int),
        t == snapshot::tail_bytes(c),
{
    wire::lemma_pow256_values();
    wire::lemma_array_exists::<32>(r.subrange(0, 32));
    wire::lemma_be_of_from_be(r.subrange(32, 40));
    wire::lemma_be_of_from_be(r.subrange(40, 48));
    wire::lemma_array_exists::<32>(r.subrange(48, 80));
    wire::lemma_be_of_from_be(r.subrange(80, 88));
    wire::lemma_be_of_from_be(r.subrange(88, 96));
    assert(r =~= snapshot::head_bytes(c) + r.subrange(SNAPSHOT_HEAD_LEN as int, r.len() as int));
    wire::lemma_array_exists::<32>(t.subrange(0, 32));
    wire::lemma_array_exists::<32>(t.subrange(32, 64));
    wire::lemma_array_exists::<32>(t.subrange(64, 96));
    wire::lemma_array_exists::<32>(t.subrange(96, 128));
    wire::lemma_be_of_from_be(t.subrange(128, 132));
    wire::lemma_be_of_from_be(t.subrange(132, 134));
    wire::lemma_be_of_from_be(t.subrange(134, 136));
    assert(t =~= snapshot::tail_bytes(c));
}

proof fn lemma_body_canonical(r: Seq<u8>, named: bool)
    requires
        snapshot::p_config(r, named) is Ok,
    ensures
        ({
            let c = snapshot::p_config(r, named)->Ok_0;
            writable(c, named) && r == body(c, named, snapshot::tail_bytes(c))
        }),
{
    let c = snapshot::p_config(r, named)->Ok_0;
    let r0 = r.subrange(SNAPSHOT_HEAD_LEN as int, r.len() as int);
    let r1 = snapshot::p_credentials(r0)->Ok_0.1;
    let r2 = snapshot::p_names(r1, named)->Ok_0.1;
    let r3 = snapshot::p_list(snapshot::relay_dec(), r2, MAX_RELAYS as int)->Ok_0.1;
    let t = snapshot::p_list(
        snapshot::service_dec(),
        r3,
        MAX_PRESENCE_SERVICES as int,
    )->Ok_0.1;
    lemma_fixed_fields(r, t, c);
    lemma_credentials_canonical(r0, c);
    if named {
        let dec = snapshot::dns_dec();
        let ok = |d: DnsRecord| dns_ok(d);
        assert forall|r: Seq<u8>| #[trigger] dec(r) is Ok implies ok(dec(r)->Ok_0.0) && r
            == snapshot::dns_enc()(dec(r)->Ok_0.0) + dec(r)->Ok_0.1 by {
            lemma_dns_canonical(r);
        }
        lemma_list_canonical(snapshot::dns_enc(), dec, ok, r1, MAX_VIRTUAL_DNS_RECORDS as int);
        assert forall|i: int| 0 <= i < c.virtual_dns.len() implies dns_ok(
            #[trigger] c.virtual_dns[i],
        ) by {
            assert(ok(c.virtual_dns[i]));
        }
    } else {
        assert(r1 =~= names_bytes(c, named) + r2);
    }
    let dec = snapshot::relay_dec();
    let ok = |d: Relay| snapshot::url_ok(d.url);
    assert forall|r: Seq<u8>| #[trigger] dec(r) is Ok implies ok(dec(r)->Ok_0.0) && r
        == snapshot::relay_enc()(dec(r)->Ok_0.0) + dec(r)->Ok_0.1 by {
        lemma_relay_canonical(r);
    }
    lemma_list_canonical(snapshot::relay_enc(), dec, ok, r2, MAX_RELAYS as int);
    assert forall|i: int| 0 <= i < c.relays.len() implies snapshot::url_ok(
        #[trigger] c.relays[i].url,
    ) by {
        assert(ok(c.relays[i]));
    }
    let dec = snapshot::service_dec();
    let ok = |d: PresenceService| snapshot::url_ok(d.url);
    assert forall|r: Seq<u8>| #[trigger] dec(r) is Ok implies ok(dec(r)->Ok_0.0) && r
        == snapshot::service_enc()(dec(r)->Ok_0.0) + dec(r)->Ok_0.1 by {
        lemma_service_canonical(r);
    }
    lemma_list_canonical(snapshot::service_enc(), dec, ok, r3, MAX_PRESENCE_SERVICES as int);
    assert forall|i: int| 0 <= i < c.presence_services.len() implies snapshot::url_ok(
        #[trigger] c.presence_services[i].url,
    ) by {
        assert(ok(c.presence_services[i]));
    }
}

/// Bytes that are read as a configuration are its only encoding in their format: that with virtual
/// names, or the one that has none.
pub proof fn law_config_canonical(b: Seq<u8>)
    requires
        snapshot::read_config(b) is Ok,
    ensures
        ({
            let c = snapshot::read_config(b)->Ok_0;
            let named = wire::has_at(b, 0, SNAPSHOT_MAGIC_V2@);
            writable(c, named) && b == written(c, named)
        }),
{
    let named = wire::has_at(b, 0, SNAPSHOT_MAGIC_V2@);
    let magic = if named {
        SNAPSHOT_MAGIC_V2@
    } else {
        SNAPSHOT_MAGIC_V1@
    };
    let r = b.subrange(8, b.len() as int);
    let c = snapshot::read_config(b)->Ok_0;
    assert(wire::has_at(b, 0, magic));
    assert(b =~= magic + r) by {
        assert(b.subrange(0, 8) == magic);
    }
    lemma_body_canonical(r, named);
    lemma_written(c, named);
}

/// Bytes that are read as a configuration are refused as malformed when anything is taken off
/// their end or put behind it.
pub proof fn law_config_is_read_whole(b: Seq<u8>, n: int, more: Seq<u8>)
    requires
        snapshot::read_config(b) is Ok,
        0 <= n < b.len(),
        more.len() > 0,
    ensures
        snapshot::read_config(b.take(n)) == Err::<Config, SnapshotError>(
            SnapshotError::MalformedWire,
        ),
        snapshot::read_config(b + more) == Err::<Config, SnapshotError>(
            SnapshotError::MalformedWire,
        ),
{
    let c = snapshot::read_config(b)->Ok_0;
    let named = wire::has_at(b, 0, SNAPSHOT_MAGIC_V2@);
    law_config_canonical(b);
    law_cut_config_is_malformed(c, named, n);
    law_extended_config_is_malformed(c, named, more);
}

} // verus!
