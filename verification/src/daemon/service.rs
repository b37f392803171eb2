//! The services of the load balancer.
use vstd::prelude::*;

use crate::acl_key::{zeros, Ipv4};
use crate::bytes::{from_le16, from_le32, le16, read_le16, read_le32};
use crate::daemon::kernel::{
    amended_writes_run, map_records, read, run_amended_writes, run_writes, seen, write_views,
    writes_run, ErrorView, Kernel, MapError, Record, Write, WriteView,
};
use crate::daemon::session::{Attempt, Session, Writer};
use crate::trace::{extends, lemma_same, since};
use crate::maps::AF_INET;
use crate::packet::read_addr16;
use crate::records::{service_key, service_key_to_bytes, service_val_to_bytes, service_value};

verus! {

/// Map of the services.
pub const LB_SERVICES_MAP: &'static str = "lb_services";

/// A service to be added or deleted.
#[derive(Debug)]
pub struct ServiceSpec {
    pub addr: Ipv4,
    pub port: u16,
    pub proto: u8,
    pub group: u32,
}

/// A service for display.
#[derive(Debug, Clone, Copy)]
pub struct ServiceEntry {
    pub addr: [u8; 16],
    pub port: u16,
    pub proto: u8,
    pub backend_group: u32,
    pub flags: u32,
    pub family: u8,
}

/// What a service says.
#[verifier::ext_equal]
pub struct ServiceView {
    pub addr: Seq<u8>,
    pub port: u16,
    pub proto: u8,
    pub backend_group: u32,
    pub flags: u32,
    pub family: u8,
}

impl View for ServiceEntry {
    type V = ServiceView;

    open spec fn view(&self) -> ServiceView {
        ServiceView {
            addr: self.addr@,
            port: self.port,
            proto: self.proto,
            backend_group: self.backend_group,
            flags: self.flags,
            family: self.family,
        }
    }
}

/// The service in a record; what a short key or value lacks reads as 0.
pub open spec fn service_in(k: Seq<u8>, v: Seq<u8>) -> ServiceView {
    ServiceView {
        addr: if k.len() >= 16 {
            k.subrange(0, 16)
        } else {
            zeros(16)
        },
        port: if k.len() >= 18 {
            from_le16(k.skip(16))
        } else {
            0
        },
        proto: if k.len() >= 19 {
            k[18]
        } else {
            0
        },
        family: if k.len() >= 20 {
            k[19]
        } else {
            0
        },
        backend_group: if v.len() >= 4 {
            from_le32(v)
        } else {
            0
        },
        flags: if v.len() >= 8 {
            v[5] as u32
        } else {
            0
        },
    }
}

/// The services in the records, in order; one whose value was gone is left
/// out.
pub open spec fn services_in(records: Seq<Record>) -> Seq<ServiceView>
    decreases records.len(),
{
    if records.len() == 0 {
        Seq::empty()
    } else {
        let before = services_in(records.drop_last());
        match records.last().value {
            Some(v) => before.push(service_in(records.last().key@, v@)),
            None => before,
        }
    }
}

pub open spec fn service_views(v: Seq<ServiceEntry>) -> Seq<ServiceView> {
    Seq::new(v.len(), |i: int| v[i]@)
}

/// The service in a record.
pub fn decode_service(key: &Vec<u8>, value: &Vec<u8>) -> (r: ServiceEntry)
    ensures
        r@ == service_in(key@, value@),
{
    let k = key.as_slice();
    let v = value.as_slice();
    assert(v@.skip(0) =~= v@);
    let mut addr = [0u8; 16];
    assert(addr@ =~= zeros(16));
    if key.len() >= 16 {
        addr = read_addr16(k, 0);
    }
    let port: u16 = if key.len() >= 18 {
        read_le16(k, 16)
    } else {
        0
    };
    let proto: u8 = if key.len() >= 19 {
        k[18]
    } else {
        0
    };
    let family: u8 = if key.len() >= 20 {
        k[19]
    } else {
        0
    };
    let backend_group: u32 = if value.len() >= 4 {
        read_le32(v, 0)
    } else {
        0
    };
    let flags: u32 = if value.len() >= 8 {
        v[5] as u32
    } else {
        0
    };
    ServiceEntry { addr, port, proto, backend_group, flags, family }
}

/// The services in the records.
pub fn decode_services(records: &Vec<Record>) -> (r: Vec<ServiceEntry>)
    ensures
        service_views(r@) == services_in(records@),
{
    let mut out: Vec<ServiceEntry> = Vec::new();
    let mut i: usize = 0;
    assert(records@.take(0) =~= Seq::empty());
    assert(service_views(out@) =~= Seq::empty());
    while i < records.len()
        invariant
            i <= records@.len(),
            service_views(out@) == services_in(records@.take(i as int)),
        decreases records@.len() - i,
    {
        assert(records@.take(i + 1).drop_last() =~= records@.take(i as int));
        if let Some(v) = &records[i].value {
            let entry = decode_service(&records[i].key, v);
            let ghost before = out@;
            out.push(entry);
            assert(service_views(out@) =~= service_views(before).push(entry@));
        }
        i += 1;
    }
    assert(records@.take(i as int) =~= records@);
    out
}

/// The list holds the services of the records read.
pub open spec fn services_listed<K: Kernel>(k: &K, r: Result<Seq<ServiceView>, ErrorView>) -> bool {
    exists|records: Result<Seq<Record>, ErrorView>|
        {
            &&& #[trigger] read(k, LB_SERVICES_MAP@, records)
            &&& r == match records {
                Ok(v) => Ok::<Seq<ServiceView>, ErrorView>(services_in(v)),
                Err(e) => Err(e),
            }
        }
}

pub open spec fn service_listing(r: Result<Vec<ServiceEntry>, MapError>) -> Result<
    Seq<ServiceView>,
    ErrorView,
> {
    match r {
        Ok(v) => Ok(service_views(v@)),
        Err(e) => Err(e@),
    }
}

/// Lists the services.
pub fn service_list<K: Kernel>(k: &K) -> (r: Result<Vec<ServiceEntry>, MapError>)
    ensures
        services_listed(k, service_listing(r)),
{
    let records = map_records(k, LB_SERVICES_MAP);
    assert(read(k, LB_SERVICES_MAP@, crate::daemon::kernel::listed(records)));
    match records {
        Ok(v) => Ok(decode_services(&v)),
        Err(e) => Err(e),
    }
}

/// The key of a service to be added or deleted.
pub open spec fn spec_key(spec: ServiceSpec) -> Seq<u8> {
    service_key(zeros(10) + seq![0xffu8, 0xff] + spec.addr@.addr, spec.port, spec.proto, AF_INET)
}

/// The change that adds a service.
pub open spec fn service_add_write(spec: ServiceSpec) -> WriteView {
    WriteView::Update {
        map: LB_SERVICES_MAP@,
        key: spec_key(spec),
        value: service_value(spec.group, 0),
    }
}

/// The change that deletes a service.
pub open spec fn service_delete_write(spec: ServiceSpec) -> WriteView {
    WriteView::Delete { map: LB_SERVICES_MAP@, key: spec_key(spec) }
}

fn key_of_spec(spec: &ServiceSpec) -> (r: Vec<u8>)
    ensures
        r@ == spec_key(*spec),
{
    service_key_to_bytes(&spec.addr.to_mapped(), spec.port, spec.proto, AF_INET)
}

/// Adds a service, or replaces the one of the same key.
pub fn service_add<K: Kernel, W: Writer>(k: &K, s: &mut Session<W>, spec: &ServiceSpec) -> (r:
    Result<(), MapError>)
    ensures
        extends(old(s).trace(), final(s).trace()),
        final(s).writer() == old(s).writer(),
        amended_writes_run(
            k,
            seq![service_add_write(*spec)],
            since(old(s).trace(), final(s).trace()),
            seen(r),
        ),
{
    let mut w: Vec<Write> = Vec::new();
    w.push(
        Write::Update {
            map: LB_SERVICES_MAP,
            key: key_of_spec(spec),
            value: service_val_to_bytes(spec.group, 0),
        },
    );
    assert(write_views(w@) =~= seq![service_add_write(*spec)]);
    run_amended_writes(k, s, &w)
}

/// Deletes a service.
pub fn service_delete<K: Kernel, W: Writer>(k: &K, s: &mut Session<W>, spec: &ServiceSpec) -> (r:
    Result<(), MapError>)
    ensures
        extends(old(s).trace(), final(s).trace()),
        final(s).writer() == old(s).writer(),
        amended_writes_run(
            k,
            seq![service_delete_write(*spec)],
            since(old(s).trace(), final(s).trace()),
            seen(r),
        ),
{
    let mut w: Vec<Write> = Vec::new();
    w.push(Write::Delete { map: LB_SERVICES_MAP, key: key_of_spec(spec) });
    assert(write_views(w@) =~= seq![service_delete_write(*spec)]);
    run_amended_writes(k, s, &w)
}

/// The key of a listed service.
pub open spec fn listed_key(s: ServiceView) -> Seq<u8> {
    service_key(s.addr, s.port, s.proto, s.family)
}

/// The changes that delete every service of a list.
pub open spec fn flush_writes(list: Seq<ServiceView>) -> Seq<WriteView> {
    Seq::new(
        list.len(),
        |i: int| WriteView::Delete { map: LB_SERVICES_MAP@, key: listed_key(list[i]) },
    )
}

/// The changes that delete every service of a list.
pub fn writes_to_flush(list: &Vec<ServiceEntry>) -> (r: Vec<Write>)
    ensures
        write_views(r@) == flush_writes(service_views(list@)),
{
    let mut w: Vec<Write> = Vec::new();
    let mut i: usize = 0;
    let ghost all = flush_writes(service_views(list@));
    assert(write_views(w@) =~= all.take(0));
    while i < list.len()
        invariant
            i <= list@.len(),
            all == flush_writes(service_views(list@)),
            write_views(w@) == all.take(i as int),
        decreases list@.len() - i,
    {
        let e = list[i];
        let key = service_key_to_bytes(&e.addr, e.port, e.proto, e.family);
        let ghost before = w@;
        w.push(Write::Delete { map: LB_SERVICES_MAP, key });
        assert(write_views(w@) =~= write_views(before).push(all[i as int]));
        assert(all.take(i + 1) =~= all.take(i as int).push(all[i as int]));
        i += 1;
    }
    assert(all.take(i as int) =~= all);
    w
}

/// All services were deleted and nothing else was changed; their number is
/// returned.
pub open spec fn services_flushed<K: Kernel>(
    k: &K,
    done: Seq<Attempt>,
    r: Result<usize, ErrorView>,
) -> bool {
    exists|list: Result<Seq<ServiceView>, ErrorView>|
        {
            &&& #[trigger] services_listed(k, list)
            &&& match list {
                Err(e) => r == Err::<usize, ErrorView>(e) && done.len() == 0,
                Ok(v) => list_flushed(k, v, done, r),
            }
        }
}

pub open spec fn list_flushed<K: Kernel>(
    k: &K,
    list: Seq<ServiceView>,
    done: Seq<Attempt>,
    r: Result<usize, ErrorView>,
) -> bool {
    exists|w: Result<(), ErrorView>|
        {
            &&& #[trigger] writes_run(k, flush_writes(list), done, w)
            &&& r == match w {
                Ok(_) => Ok::<usize, ErrorView>(list.len() as usize),
                Err(e) => Err(e),
            }
        }
}

/// Deletes all services and returns how many there were.
pub fn service_flush<K: Kernel, W: Writer>(k: &K, s: &mut Session<W>) -> (r: Result<
    usize,
    MapError,
>)
    ensures
        extends(old(s).trace(), final(s).trace()),
        final(s).writer() == old(s).writer(),
        services_flushed(k, since(old(s).trace(), final(s).trace()), seen(r)),
{
    let ghost start = s.trace();
    proof {
        lemma_same(start);
    }
    let list = service_list(k);
    assert(services_listed(k, service_listing(list)));
    match list {
        Err(e) => {
            assert(services_listed(k, Err(e@)));
            Err(e)
        },
        Ok(v) => {
            let writes = writes_to_flush(&v);
            let w = run_writes(k, s, &writes);
            let ghost done = since(start, s.trace());
            assert(writes_run(k, flush_writes(service_views(v@)), done, seen(w)));
            assert(services_listed(k, Ok(service_views(v@))));
            match w {
                Ok(_) => {
                    assert(list_flushed(k, service_views(v@), done, Ok(v@.len() as usize)));
                    Ok(v.len())
                },
                Err(e) => {
                    assert(list_flushed(k, service_views(v@), done, Err(e@)));
                    Err(e)
                },
            }
        },
    }
}

// ---- Laws ----

/// A listed service has the key that it was stored under, so flushing deletes
/// exactly the keys of the map.
pub proof fn listed_service_keeps_its_key(k: Seq<u8>, v: Seq<u8>)
    requires
        k.len() == 20,
    ensures
        listed_key(service_in(k, v)) == k,
{
    let s = service_in(k, v);
    assert(le16(from_le16(k.skip(16))) =~= k.subrange(16, 18));
    assert(listed_key(s) =~= k);
}

/// A service that is stored with flags of one byte is listed with its address,
/// port, protocol, group and flags.
pub proof fn added_service_is_listed(spec: ServiceSpec, flags: u32)
    requires
        flags < 256,
    ensures
        service_in(spec_key(spec), service_value(spec.group, flags)) == (ServiceView {
            addr: zeros(10) + seq![0xffu8, 0xff] + spec.addr@.addr,
            port: spec.port,
            proto: spec.proto,
            backend_group: spec.group,
            flags,
            family: AF_INET,
        }),
{
    let k = spec_key(spec);
    let v = service_value(spec.group, flags);
    let addr = zeros(10) + seq![0xffu8, 0xff] + spec.addr@.addr;
    crate::bytes::lemma_le16_roundtrip(spec.port);
    crate::bytes::lemma_le32_roundtrip(spec.group);
    assert(k.subrange(0, 16) =~= addr);
    assert(k.skip(16)[0] == le16(spec.port)[0] && k.skip(16)[1] == le16(spec.port)[1]);
    assert(v[0] == crate::bytes::le32(spec.group)[0] && v[1] == crate::bytes::le32(spec.group)[1]
        && v[2] == crate::bytes::le32(spec.group)[2] && v[3] == crate::bytes::le32(spec.group)[3]);
    assert(v[5] == flags);
}

} // verus!
