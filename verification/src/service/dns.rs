use crate::resource::domain::{ns_views, NsView, NS};
use crate::resource::{clone_texts, texts_of, ResourceView};
use crate::store::memory::iptrie::{lemma_covering_nothing, prefix_v4, prefix_v6};
use crate::store::{SnapshotView, Store};
use crate::util::cidr::{
    host_mask_v4, host_mask_v6, is_prefix_v4, is_prefix_v6, octets_v4, Ipv4CidrWrapper,
    Ipv6CidrWrapper,
};
use crate::util::number::{
    decimal, digit_char, lemma_decimal_reads_back, lemma_digit_reads_back, parse_u8, u8_of,
};
use vstd::prelude::*;
use vstd::string::StringExecFns;

verus! {

/// The time to live of every record that the server returns, in seconds.
pub const RECORD_TTL: u32 = 300;

/// The outcome of a query, as the response's header states it.
#[derive(Clone, Copy, Debug, PartialEq, Eq, Structural)]
pub enum ResponseCode {
    NoError,
    ServFail,
    NXDomain,
}

/// The part of the name space that a query name lies in.
#[derive(Clone, Copy, Debug, PartialEq, Eq, Structural)]
pub enum Zone {
    /// Under the registry's top-level label.
    Forward,
    /// Under `in-addr.arpa`.
    ReverseV4,
    /// Under `ip6.arpa`.
    ReverseV6,
    /// Anywhere else.
    Other,
}

/// The address of a name server, as a number.
#[derive(Clone, Copy, Debug, PartialEq, Eq, Structural)]
pub enum GlueAddress {
    A(u32),
    AAAA(u128),
}

/// An NS record of the authority section: the zone's name by its labels, and
/// the name of a server of the zone.
#[derive(Debug)]
pub struct NsRecord {
    pub owner: Vec<String>,
    pub ttl: u32,
    pub server: String,
}

/// What an NS record holds.
pub struct NsRecordView {
    pub owner: Seq<Seq<char>>,
    pub ttl: u32,
    pub server: Seq<char>,
}

impl View for NsRecord {
    type V = NsRecordView;

    open spec fn view(&self) -> NsRecordView {
        NsRecordView { owner: texts_of(self.owner@), ttl: self.ttl, server: self.server@ }
    }
}

/// An address record of the additional section: the name of a server and one
/// of its addresses.
#[derive(Debug)]
pub struct GlueRecord {
    pub owner: String,
    pub ttl: u32,
    pub address: GlueAddress,
}

/// What an address record holds.
pub struct GlueRecordView {
    pub owner: Seq<char>,
    pub ttl: u32,
    pub address: GlueAddress,
}

impl View for GlueRecord {
    type V = GlueRecordView;

    open spec fn view(&self) -> GlueRecordView {
        GlueRecordView { owner: self.owner@, ttl: self.ttl, address: self.address }
    }
}

/// What each NS record of a list holds.
pub open spec fn ns_record_views(list: Seq<NsRecord>) -> Seq<NsRecordView> {
    list.map_values(|r: NsRecord| r@)
}

/// What each address record of a list holds.
pub open spec fn glue_record_views(list: Seq<GlueRecord>) -> Seq<GlueRecordView> {
    list.map_values(|r: GlueRecord| r@)
}

/// The server's answer to a query: the response code, the authoritative bit,
/// and the records of the authority and the additional section. The answer
/// section is always empty.
#[derive(Debug)]
pub struct DnsAnswer {
    pub code: ResponseCode,
    pub authoritative: bool,
    pub name_servers: Vec<NsRecord>,
    pub additional: Vec<GlueRecord>,
}

/// What an answer holds.
pub struct DnsAnswerView {
    pub code: ResponseCode,
    pub authoritative: bool,
    pub name_servers: Seq<NsRecordView>,
    pub additional: Seq<GlueRecordView>,
}

impl View for DnsAnswer {
    type V = DnsAnswerView;

    open spec fn view(&self) -> DnsAnswerView {
        DnsAnswerView {
            code: self.code,
            authoritative: self.authoritative,
            name_servers: ns_record_views(self.name_servers@),
            additional: glue_record_views(self.additional@),
        }
    }
}

/// `zone` is a zone of `name`: the labels of `name` end with those of `zone`.
pub open spec fn zone_of_spec(zone: Seq<Seq<char>>, name: Seq<Seq<char>>) -> bool {
    zone.len() <= name.len() && name.skip(name.len() - zone.len()) == zone
}

/// The last `n` labels of a name; the whole name where it has no more.
pub open spec fn trim_to_spec(name: Seq<Seq<char>>, n: nat) -> Seq<Seq<char>> {
    if n > name.len() {
        name
    } else {
        name.skip(name.len() - n)
    }
}

/// The labels of a name, written with a dot between them.
pub open spec fn join_spec(name: Seq<Seq<char>>) -> Seq<char>
    decreases name.len(),
{
    if name.len() == 0 {
        Seq::empty()
    } else if name.len() == 1 {
        name[0]
    } else {
        join_spec(name.drop_last()) + seq!['.'] + name.last()
    }
}

/// Whether the labels of `name` end with those of `zone`. Labels are compared
/// as they are given.
pub fn zone_of(zone: &Vec<String>, name: &Vec<String>) -> (r: bool)
    ensures
        r == zone_of_spec(texts_of(zone@), texts_of(name@)),
{
    if zone.len() > name.len() {
        return false;
    }
    let offset: usize = name.len() - zone.len();
    let ghost tail = texts_of(name@).skip(offset as int);
    let mut i: usize = 0;
    while i < zone.len()
        invariant
            i <= zone.len(),
            offset == name.len() - zone.len(),
            tail == texts_of(name@).skip(offset as int),
            forall|j: int| 0 <= j < i ==> tail[j] == texts_of(zone@)[j],
        decreases zone.len() - i,
    {
        if zone[i] != name[offset + i] {
            proof {
                assert(tail[i as int] == name@[offset + i]@);
                assert(texts_of(zone@)[i as int] == zone@[i as int]@);
            }
            return false;
        }
        proof {
            assert(tail[i as int] == name@[offset + i]@);
        }
        i += 1;
    }
    proof {
        assert(tail =~= texts_of(zone@));
    }
    true
}

/// The last `n` labels of a name; the whole name where it has no more.
pub fn trim_to(name: &Vec<String>, n: usize) -> (r: Vec<String>)
    ensures
        texts_of(r@) == trim_to_spec(texts_of(name@), n as nat),
{
    let start: usize = if n > name.len() {
        0
    } else {
        name.len() - n
    };
    let mut out: Vec<String> = Vec::new();
    let mut i: usize = start;
    while i < name.len()
        invariant
            start <= i <= name.len(),
            out.len() == i - start,
            forall|j: int| 0 <= j < out.len() ==> out@[j]@ == name@[start + j]@,
        decreases name.len() - i,
    {
        out.push(name[i].clone());
        i += 1;
    }
    proof {
        assert(texts_of(name@).skip(0) =~= texts_of(name@));
        assert(texts_of(out@) =~= trim_to_spec(texts_of(name@), n as nat));
    }
    out
}

/// The labels of a name, written with a dot between them.
pub fn join(name: &Vec<String>) -> (r: String)
    ensures
        r@ == join_spec(texts_of(name@)),
{
    let mut out: String = String::new();
    let mut i: usize = 0;
    proof {
        reveal_strlit(".");
        assert(texts_of(name@).take(0) =~= Seq::<Seq<char>>::empty());
    }
    while i < name.len()
        invariant
            i <= name.len(),
            out@ == join_spec(texts_of(name@).take(i as int)),
            "."@ == seq!['.'],
        decreases name.len() - i,
    {
        proof {
            let now = texts_of(name@).take(i + 1);
            assert(now.drop_last() =~= texts_of(name@).take(i as int));
            assert(now.last() == name@[i as int]@);
        }
        if i > 0 {
            out.append(".");
        }
        out.append(name[i].as_str());
        proof {
            if i == 0 {
                assert(out@ =~= name@[0]@);
            }
        }
        i += 1;
    }
    proof {
        assert(texts_of(name@).take(name@.len() as int) =~= texts_of(name@));
    }
    out
}

/// The labels of a reverse name that stand before the two labels of its zone.
pub open spec fn address_labels(name: Seq<Seq<char>>) -> Seq<Seq<char>> {
    if name.len() < 2 {
        Seq::empty()
    } else {
        name.take(name.len() - 2)
    }
}

/// The number that labels write as decimal octets, the last label the most
/// significant; `None` where a label is no number below 256.
pub open spec fn octets_value(labels: Seq<Seq<char>>) -> Option<u32>
    decreases labels.len(),
{
    if labels.len() == 0 {
        Some(0u32)
    } else {
        match (octets_value(labels.drop_first()), u8_of(labels[0], 10)) {
            (Some(high), Some(v)) => Some((high << 8u32) | (v as u32)),
            _ => None,
        }
    }
}

/// The number that labels write as hexadecimal nibbles, the last label the
/// most significant; `None` where a label is no number below 16.
pub open spec fn nibbles_value(labels: Seq<Seq<char>>) -> Option<u128>
    decreases labels.len(),
{
    if labels.len() == 0 {
        Some(0u128)
    } else {
        match (nibbles_value(labels.drop_first()), u8_of(labels[0], 16)) {
            (Some(high), Some(v)) => if v < 16 {
                Some((high << 4u128) | (v as u128))
            } else {
                None
            },
            _ => None,
        }
    }
}

/// The IPv4 prefix that a name under `in-addr.arpa` asks for, as an address
/// and a length: one to four octets, eight bits of length for each.
pub open spec fn reverse_v4_spec(name: Seq<Seq<char>>) -> Option<(u32, u8)> {
    let labels = address_labels(name);
    if labels.len() < 1 || labels.len() > 4 {
        None
    } else {
        match octets_value(labels) {
            Some(v) => {
                let len = (8 * labels.len()) as u8;
                let address = v << ((32 - len) as u32);
                if is_prefix_v4(address, len) {
                    Some((address, len))
                } else {
                    None
                }
            },
            None => None,
        }
    }
}

/// The IPv6 prefix that a name under `ip6.arpa` asks for, as an address and a
/// length: one to thirty-two nibbles, four bits of length for each.
pub open spec fn reverse_v6_spec(name: Seq<Seq<char>>) -> Option<(u128, u8)> {
    let labels = address_labels(name);
    if labels.len() < 1 || labels.len() > 32 {
        None
    } else {
        match nibbles_value(labels) {
            Some(v) => {
                let len = (4 * labels.len()) as u8;
                let address = v << ((128 - len) as u128);
                if is_prefix_v6(address, len) {
                    Some((address, len))
                } else {
                    None
                }
            },
            None => None,
        }
    }
}

/// Labels of which the last ones write no number write none.
pub proof fn lemma_octets_tail_fails(labels: Seq<Seq<char>>, i: int)
    requires
        0 <= i <= labels.len(),
        octets_value(labels.skip(i)).is_none(),
    ensures
        octets_value(labels).is_none(),
    decreases i,
{
    if i > 0 {
        assert(labels.drop_first().skip(i - 1) =~= labels.skip(i));
        lemma_octets_tail_fails(labels.drop_first(), i - 1);
    } else {
        assert(labels.skip(0) =~= labels);
    }
}

/// Labels of which the last ones write no number write none.
pub proof fn lemma_nibbles_tail_fails(labels: Seq<Seq<char>>, i: int)
    requires
        0 <= i <= labels.len(),
        nibbles_value(labels.skip(i)).is_none(),
    ensures
        nibbles_value(labels).is_none(),
    decreases i,
{
    if i > 0 {
        assert(labels.drop_first().skip(i - 1) =~= labels.skip(i));
        lemma_nibbles_tail_fails(labels.drop_first(), i - 1);
    } else {
        assert(labels.skip(0) =~= labels);
    }
}

/// The IPv4 prefix that a name under `in-addr.arpa` asks for, if its labels
/// write one.
pub fn reverse_v4_cidr(name: &Vec<String>) -> (r: Option<Ipv4CidrWrapper>)
    ensures
        r.is_some() == reverse_v4_spec(texts_of(name@)).is_some(),
        r matches Some(c) ==> Some(c.parts()) == reverse_v4_spec(texts_of(name@)) && c.wf(),
{
    if name.len() < 3 || name.len() > 6 {
        return None;
    }
    let count: usize = name.len() - 2;
    let ghost labels = address_labels(texts_of(name@));
    let mut digits: u32 = 0;
    let mut i: usize = count;
    proof {
        assert(labels.skip(count as int) =~= Seq::<Seq<char>>::empty());
    }
    while i > 0
        invariant
            i <= count,
            count == name.len() - 2,
            labels == address_labels(texts_of(name@)),
            labels.len() == count,
            octets_value(labels.skip(i as int)) == Some(digits),
        decreases i,
    {
        i -= 1;
        proof {
            assert(labels.skip(i as int).drop_first() =~= labels.skip(i + 1));
            assert(labels.skip(i as int)[0] == name@[i as int]@);
        }
        match parse_u8(name[i].as_str(), 10) {
            Some(num) => {
                digits = (digits << 8u32) | (num as u32);
            },
            None => {
                proof {
                    lemma_octets_tail_fails(labels, i as int);
                }
                return None;
            },
        }
    }
    proof {
        assert(labels.skip(0) =~= labels);
    }
    let len: u8 = (8 * count) as u8;
    let address: u32 = digits << ((32 - len) as u32);
    match Ipv4CidrWrapper::new(address, len) {
        Ok(c) => Some(c),
        Err(_) => None,
    }
}

/// The IPv6 prefix that a name under `ip6.arpa` asks for, if its labels write
/// one.
pub fn reverse_v6_cidr(name: &Vec<String>) -> (r: Option<Ipv6CidrWrapper>)
    ensures
        r.is_some() == reverse_v6_spec(texts_of(name@)).is_some(),
        r matches Some(c) ==> Some(c.parts()) == reverse_v6_spec(texts_of(name@)) && c.wf(),
{
    if name.len() < 3 || name.len() > 34 {
        return None;
    }
    let count: usize = name.len() - 2;
    let ghost labels = address_labels(texts_of(name@));
    let mut digits: u128 = 0;
    let mut i: usize = count;
    proof {
        assert(labels.skip(count as int) =~= Seq::<Seq<char>>::empty());
    }
    while i > 0
        invariant
            i <= count,
            count == name.len() - 2,
            labels == address_labels(texts_of(name@)),
            labels.len() == count,
            nibbles_value(labels.skip(i as int)) == Some(digits),
        decreases i,
    {
        i -= 1;
        proof {
            assert(labels.skip(i as int).drop_first() =~= labels.skip(i + 1));
            assert(labels.skip(i as int)[0] == name@[i as int]@);
        }
        match parse_u8(name[i].as_str(), 16) {
            Some(num) => {
                if num >= 16 {
                    proof {
                        lemma_nibbles_tail_fails(labels, i as int);
                    }
                    return None;
                }
                digits = (digits << 4u128) | (num as u128);
            },
            None => {
                proof {
                    lemma_nibbles_tail_fails(labels, i as int);
                }
                return None;
            },
        }
    }
    proof {
        assert(labels.skip(0) =~= labels);
    }
    let len: u8 = (4 * count) as u8;
    let address: u128 = digits << ((128 - len) as u128);
    match Ipv6CidrWrapper::new(address, len) {
        Ok(c) => Some(c),
        Err(_) => None,
    }
}

/// The NS record that names one server for the zone `owner`.
pub open spec fn ns_record_of(owner: Seq<Seq<char>>, ns: NsView) -> NsRecordView {
    NsRecordView { owner, ttl: RECORD_TTL, server: ns.server }
}

/// The address records of one server: its IPv4 address, then its IPv6
/// address, as far as it has them.
pub open spec fn glue_of(ns: NsView) -> Seq<GlueRecordView> {
    let a = match ns.a {
        Some(address) => seq![
            GlueRecordView { owner: ns.server, ttl: RECORD_TTL, address: GlueAddress::A(address) },
        ],
        None => Seq::empty(),
    };
    let aaaa = match ns.aaaa {
        Some(address) => seq![
            GlueRecordView {
                owner: ns.server,
                ttl: RECORD_TTL,
                address: GlueAddress::AAAA(address),
            },
        ],
        None => Seq::empty(),
    };
    a + aaaa
}

/// The NS records that name the servers of a list for the zone `owner`, in
/// the list's order.
pub open spec fn name_servers_of(owner: Seq<Seq<char>>, list: Seq<NsView>) -> Seq<NsRecordView>
    decreases list.len(),
{
    if list.len() == 0 {
        Seq::empty()
    } else {
        name_servers_of(owner, list.drop_last()).push(ns_record_of(owner, list.last()))
    }
}

/// The address records of the servers of a list, in the list's order.
pub open spec fn additional_of(list: Seq<NsView>) -> Seq<GlueRecordView>
    decreases list.len(),
{
    if list.len() == 0 {
        Seq::empty()
    } else {
        additional_of(list.drop_last()) + glue_of(list.last())
    }
}

/// An answer without records that reports `code` and is not authoritative.
pub open spec fn refusal(code: ResponseCode) -> DnsAnswerView {
    DnsAnswerView {
        code,
        authoritative: false,
        name_servers: Seq::empty(),
        additional: Seq::empty(),
    }
}

/// The authoritative answer that delegates the zone `owner` to the servers of
/// a list.
pub open spec fn delegation(owner: Seq<Seq<char>>, list: Seq<NsView>) -> DnsAnswerView {
    DnsAnswerView {
        code: ResponseCode::NoError,
        authoritative: true,
        name_servers: name_servers_of(owner, list),
        additional: additional_of(list),
    }
}

/// The answer to a query for a name under the registry's top-level label: the
/// delegation of the zone of the name's last two labels, if the registry
/// holds that domain.
pub open spec fn forward_answer(snapshot: SnapshotView, name: Seq<Seq<char>>) -> DnsAnswerView {
    let owner = trim_to_spec(name, 2);
    let key = join_spec(owner);
    if snapshot.domains.contains_key(key) {
        delegation(owner, snapshot.domains[key].ns)
    } else {
        refusal(ResponseCode::NXDomain)
    }
}

/// The number of labels in the reverse name of an IPv4 prefix of `len` bits:
/// one for each octet that the prefix reaches into, and the zone's two.
pub open spec fn owner_labels_v4(len: u8) -> nat {
    ((len + 7) / 8 + 2) as nat
}

/// The number of labels in the reverse name of an IPv6 prefix of `len` bits:
/// one for each nibble that the prefix reaches into, and the zone's two.
pub open spec fn owner_labels_v6(len: u8) -> nat {
    ((len + 3) / 4 + 2) as nat
}

/// The answer to a query for a name under `in-addr.arpa`: the delegation of
/// the least specific prefix that covers what the name asks for, under the
/// reverse name of that prefix; without records where that prefix names no
/// servers.
pub open spec fn reverse_v4_answer(snapshot: SnapshotView, name: Seq<Seq<char>>) -> DnsAnswerView {
    match reverse_v4_spec(name) {
        None => refusal(ResponseCode::NXDomain),
        Some(cidr) => {
            let found = snapshot.inetnums_covering(cidr);
            if found.len() == 0 {
                refusal(ResponseCode::NXDomain)
            } else {
                match found[0].ns {
                    Some(list) => delegation(
                        trim_to_spec(name, owner_labels_v4(found[0].cidr.length())),
                        list,
                    ),
                    None => delegation(Seq::empty(), Seq::empty()),
                }
            }
        },
    }
}

/// The answer to a query for a name under `ip6.arpa`: the delegation of the
/// least specific prefix that covers what the name asks for, under the
/// reverse name of that prefix; without records where that prefix names no
/// servers.
pub open spec fn reverse_v6_answer(snapshot: SnapshotView, name: Seq<Seq<char>>) -> DnsAnswerView {
    match reverse_v6_spec(name) {
        None => refusal(ResponseCode::NXDomain),
        Some(cidr) => {
            let found = snapshot.inet6nums_covering(cidr);
            if found.len() == 0 {
                refusal(ResponseCode::NXDomain)
            } else {
                match found[0].ns {
                    Some(list) => delegation(
                        trim_to_spec(name, owner_labels_v6(found[0].cidr.length())),
                        list,
                    ),
                    None => delegation(Seq::empty(), Seq::empty()),
                }
            }
        },
    }
}

/// Adds the NS record that names `ns_record` for the zone `domain_name` to
/// `nameservers`, and the address records of that server to
/// `additional_records`.
pub fn append_ns_record(
    domain_name: &Vec<String>,
    ns_record: &NS,
    nameservers: &mut Vec<NsRecord>,
    additional_records: &mut Vec<GlueRecord>,
)
    ensures
        ns_record_views(final(nameservers)@) == ns_record_views(old(nameservers)@).push(
            ns_record_of(texts_of(domain_name@), ns_record@),
        ),
        glue_record_views(final(additional_records)@) == glue_record_views(
            old(additional_records)@,
        ) + glue_of(ns_record@),
{
    nameservers.push(
        NsRecord {
            owner: clone_texts(domain_name),
            ttl: RECORD_TTL,
            server: ns_record.server.clone(),
        },
    );
    match ns_record.a {
        Some(address) => {
            additional_records.push(
                GlueRecord {
                    owner: ns_record.server.clone(),
                    ttl: RECORD_TTL,
                    address: GlueAddress::A(address),
                },
            );
        },
        None => {},
    }
    match ns_record.aaaa {
        Some(address) => {
            additional_records.push(
                GlueRecord {
                    owner: ns_record.server.clone(),
                    ttl: RECORD_TTL,
                    address: GlueAddress::AAAA(address),
                },
            );
        },
        None => {},
    }
    proof {
        assert(ns_record_views(nameservers@) =~= ns_record_views(old(nameservers)@).push(
            ns_record_of(texts_of(domain_name@), ns_record@),
        ));
        assert(glue_record_views(additional_records@) =~= glue_record_views(
            old(additional_records)@,
        ) + glue_of(ns_record@));
    }
}

/// Adds the NS records that name the servers of `ns_records` for the zone
/// `domain_name` to `nameservers`, and the address records of those servers
/// to `additional_records`.
pub fn append_ns_records(
    domain_name: &Vec<String>,
    ns_records: &Vec<NS>,
    nameservers: &mut Vec<NsRecord>,
    additional_records: &mut Vec<GlueRecord>,
)
    ensures
        ns_record_views(final(nameservers)@) == ns_record_views(old(nameservers)@)
            + name_servers_of(texts_of(domain_name@), ns_views(ns_records@)),
        glue_record_views(final(additional_records)@) == glue_record_views(
            old(additional_records)@,
        ) + additional_of(ns_views(ns_records@)),
{
    let mut i: usize = 0;
    let ghost owner = texts_of(domain_name@);
    proof {
        assert(ns_views(ns_records@).take(0) =~= Seq::<NsView>::empty());
        assert(ns_record_views(nameservers@) =~= ns_record_views(old(nameservers)@)
            + name_servers_of(owner, ns_views(ns_records@).take(0)));
        assert(glue_record_views(additional_records@) =~= glue_record_views(
            old(additional_records)@,
        ) + additional_of(ns_views(ns_records@).take(0)));
    }
    while i < ns_records.len()
        invariant
            i <= ns_records.len(),
            owner == texts_of(domain_name@),
            ns_record_views(nameservers@) == ns_record_views(old(nameservers)@) + name_servers_of(
                owner,
                ns_views(ns_records@).take(i as int),
            ),
            glue_record_views(additional_records@) == glue_record_views(old(additional_records)@)
                + additional_of(ns_views(ns_records@).take(i as int)),
        decreases ns_records.len() - i,
    {
        let ghost names_before = ns_record_views(nameservers@);
        let ghost glue_before = glue_record_views(additional_records@);
        append_ns_record(domain_name, &ns_records[i], nameservers, additional_records);
        proof {
            let now = ns_views(ns_records@).take(i + 1);
            assert(now.drop_last() =~= ns_views(ns_records@).take(i as int));
            assert(now.last() == ns_records@[i as int]@);
            assert(ns_record_views(nameservers@) =~= ns_record_views(old(nameservers)@)
                + name_servers_of(owner, now));
            assert(glue_record_views(additional_records@) =~= glue_record_views(
                old(additional_records)@,
            ) + additional_of(now));
        }
        i += 1;
    }
    proof {
        assert(ns_views(ns_records@).take(ns_records@.len() as int) =~= ns_views(ns_records@));
    }
}

/// An answer without records that reports `code`.
pub fn handle_request_code(code: ResponseCode) -> (r: DnsAnswer)
    ensures
        r@ == refusal(code),
{
    let r = DnsAnswer {
        code,
        authoritative: false,
        name_servers: Vec::new(),
        additional: Vec::new(),
    };
    proof {
        assert(r@.name_servers =~= Seq::<NsRecordView>::empty());
        assert(r@.additional =~= Seq::<GlueRecordView>::empty());
    }
    r
}

/// The authoritative answer that delegates the zone `owner` to the servers of
/// `ns_records`.
pub fn delegate(owner: &Vec<String>, ns_records: &Vec<NS>) -> (r: DnsAnswer)
    ensures
        r@ == delegation(texts_of(owner@), ns_views(ns_records@)),
{
    let mut name_servers: Vec<NsRecord> = Vec::new();
    let mut additional: Vec<GlueRecord> = Vec::new();
    append_ns_records(owner, ns_records, &mut name_servers, &mut additional);
    let r = DnsAnswer { code: ResponseCode::NoError, authoritative: true, name_servers, additional };
    proof {
        assert(r@.name_servers =~= name_servers_of(texts_of(owner@), ns_views(ns_records@)));
        assert(r@.additional =~= additional_of(ns_views(ns_records@)));
    }
    r
}

/// Answers a query for a name under the registry's top-level label.
pub fn handle_request_domain<S: Store>(store: &S, name: &Vec<String>) -> (r: DnsAnswer)
    ensures
        r@ == forward_answer(store.snapshot(), texts_of(name@)),
{
    let domain_name = trim_to(name, 2);
    let domain_str = join(&domain_name);
    match store.get_domain(domain_str) {
        Some(domain) => delegate(&domain_name, &domain.ns),
        None => handle_request_code(ResponseCode::NXDomain),
    }
}

/// Answers a query for a name under `in-addr.arpa`.
pub fn handle_request_ipv4<S: Store>(store: &S, name: &Vec<String>) -> (r: DnsAnswer)
    ensures
        r@ == reverse_v4_answer(store.snapshot(), texts_of(name@)),
{
    let cidr = match reverse_v4_cidr(name) {
        Some(c) => c,
        None => {
            return handle_request_code(ResponseCode::NXDomain);
        },
    };
    let (prefixes, _) = store.get_inetnum_prefixes(cidr);
    if prefixes.len() == 0 {
        return handle_request_code(ResponseCode::NXDomain);
    }
    let least = &prefixes[0];
    match &least.ns {
        Some(ns_records) => {
            let labels: usize = ((least.cidr.network_length() + 7) / 8 + 2) as usize;
            let owner = trim_to(name, labels);
            delegate(&owner, ns_records)
        },
        None => {
            let r = delegate(&Vec::new(), &Vec::new());
            proof {
                assert(texts_of(Seq::<String>::empty()) =~= Seq::<Seq<char>>::empty());
                assert(ns_views(Seq::<NS>::empty()) =~= Seq::<NsView>::empty());
            }
            r
        },
    }
}

/// Answers a query for a name under `ip6.arpa`.
pub fn handle_request_ipv6<S: Store>(store: &S, name: &Vec<String>) -> (r: DnsAnswer)
    ensures
        r@ == reverse_v6_answer(store.snapshot(), texts_of(name@)),
{
    let cidr = match reverse_v6_cidr(name) {
        Some(c) => c,
        None => {
            return handle_request_code(ResponseCode::NXDomain);
        },
    };
    let (prefixes, _) = store.get_inet6num_prefixes(cidr);
    if prefixes.len() == 0 {
        return handle_request_code(ResponseCode::NXDomain);
    }
    let least = &prefixes[0];
    match &least.ns {
        Some(ns_records) => {
            let labels: usize = ((least.cidr.network_length() + 3) / 4 + 2) as usize;
            let owner = trim_to(name, labels);
            delegate(&owner, ns_records)
        },
        None => {
            let r = delegate(&Vec::new(), &Vec::new());
            proof {
                assert(texts_of(Seq::<String>::empty()) =~= Seq::<Seq<char>>::empty());
                assert(ns_views(Seq::<NS>::empty()) =~= Seq::<NsView>::empty());
            }
            r
        },
    }
}

/// The registry's top-level label.
pub fn default_tld() -> (r: &'static str)
    ensures
        r@ == "catmunch"@,
{
    "catmunch"
}

/// The part of the name space that a name lies in, with `tld` as the
/// registry's top-level label: the first that fits of the registry's own
/// zone, `in-addr.arpa` and `ip6.arpa`.
pub open spec fn classify_spec(name: Seq<Seq<char>>, tld: Seq<char>) -> Zone {
    if zone_of_spec(seq![tld], name) {
        Zone::Forward
    } else if zone_of_spec(seq!["in-addr"@, "arpa"@], name) {
        Zone::ReverseV4
    } else if zone_of_spec(seq!["ip6"@, "arpa"@], name) {
        Zone::ReverseV6
    } else {
        Zone::Other
    }
}

/// The part of the name space that a name lies in, with `tld` as the
/// registry's top-level label.
pub fn classify(name: &Vec<String>, tld: &str) -> (r: Zone)
    ensures
        r == classify_spec(texts_of(name@), tld@),
{
    let forward: Vec<String> = vec![String::from_str(tld)];
    let reverse_v4: Vec<String> = vec![String::from_str("in-addr"), String::from_str("arpa")];
    let reverse_v6: Vec<String> = vec![String::from_str("ip6"), String::from_str("arpa")];
    proof {
        assert(texts_of(forward@) =~= seq![tld@]);
        assert(texts_of(reverse_v4@) =~= seq!["in-addr"@, "arpa"@]);
        assert(texts_of(reverse_v6@) =~= seq!["ip6"@, "arpa"@]);
    }
    if zone_of(&forward, name) {
        Zone::Forward
    } else if zone_of(&reverse_v4, name) {
        Zone::ReverseV4
    } else if zone_of(&reverse_v6, name) {
        Zone::ReverseV6
    } else {
        Zone::Other
    }
}

/// The answer to a request: a failure for anything but a query with the
/// `QUERY` opcode and for a name outside the three zones; else the answer of
/// the name's zone.
pub open spec fn answer_spec(
    snapshot: SnapshotView,
    op_is_query: bool,
    message_is_query: bool,
    name: Seq<Seq<char>>,
    tld: Seq<char>,
) -> DnsAnswerView {
    if !op_is_query || !message_is_query {
        refusal(ResponseCode::ServFail)
    } else {
        match classify_spec(name, tld) {
            Zone::Forward => forward_answer(snapshot, name),
            Zone::ReverseV4 => reverse_v4_answer(snapshot, name),
            Zone::ReverseV6 => reverse_v6_answer(snapshot, name),
            Zone::Other => refusal(ResponseCode::ServFail),
        }
    }
}

/// Answers a request from the store. `op_is_query` says whether the request's
/// opcode is `QUERY`, `message_is_query` whether the message is a query and
/// no response; `name` holds the labels of the name asked for, in lower case,
/// and `tld` the registry's top-level label.
pub fn handle_request<S: Store>(
    store: &S,
    op_is_query: bool,
    message_is_query: bool,
    name: &Vec<String>,
    tld: &str,
) -> (r: DnsAnswer)
    ensures
        r@ == answer_spec(store.snapshot(), op_is_query, message_is_query, texts_of(name@), tld@),
{
    if !op_is_query {
        return handle_request_code(ResponseCode::ServFail);
    }
    if !message_is_query {
        return handle_request_code(ResponseCode::ServFail);
    }
    match classify(name, tld) {
        Zone::Forward => handle_request_domain(store, name),
        Zone::ReverseV4 => handle_request_ipv4(store, name),
        Zone::ReverseV6 => handle_request_ipv6(store, name),
        Zone::Other => handle_request_code(ResponseCode::ServFail),
    }
}

/// Nibble `i` of an IPv6 address, the most significant nibble being nibble 0.
pub open spec fn nibble_v6(address: u128, i: int) -> u8 {
    ((address >> ((124 - 4 * i) as u128)) & 0xf) as u8
}

/// The labels that write the first `count` octets of an IPv4 address as
/// decimal numbers, the last of those octets first.
pub open spec fn octet_labels(address: u32, count: nat) -> Seq<Seq<char>> {
    Seq::new(count, |i: int| decimal(octets_v4(address)[count - 1 - i] as nat))
}

/// The labels that write the first `count` nibbles of an IPv6 address as
/// hexadecimal digits, the last of those nibbles first.
pub open spec fn nibble_labels(address: u128, count: nat) -> Seq<Seq<char>> {
    Seq::new(count, |i: int| seq![digit_char(nibble_v6(address, count - 1 - i) as nat)])
}

/// The reverse name of an IPv4 prefix whose length is a multiple of eight: the
/// octets that the prefix fixes, the last one first, then `in-addr.arpa`.
pub open spec fn reverse_name_v4(cidr: (u32, u8)) -> Seq<Seq<char>> {
    octet_labels(cidr.0, (cidr.1 / 8) as nat) + seq!["in-addr"@, "arpa"@]
}

/// The reverse name of an IPv6 prefix whose length is a multiple of four: the
/// nibbles that the prefix fixes, the last one first, then `ip6.arpa`.
pub open spec fn reverse_name_v6(cidr: (u128, u8)) -> Seq<Seq<char>> {
    nibble_labels(cidr.0, (cidr.1 / 4) as nat) + seq!["ip6"@, "arpa"@]
}

/// The first `count` octets of an IPv4 address, as a number.
pub open spec fn top_octets(address: u32, count: nat) -> u32 {
    if count == 0 {
        0
    } else {
        address >> ((32 - 8 * count) as u32)
    }
}

/// The first `count` nibbles of an IPv6 address, as a number.
pub open spec fn top_nibbles(address: u128, count: nat) -> u128 {
    if count == 0 {
        0
    } else {
        address >> ((128 - 4 * count) as u128)
    }
}

/// The labels of the first octets of an address, from label `from` on, write
/// the octets before them.
pub proof fn lemma_octet_labels_value(address: u32, count: nat, from: int)
    requires
        count <= 4,
        0 <= from <= count,
    ensures
        octets_value(octet_labels(address, count).skip(from)) == Some(
            top_octets(address, (count - from) as nat),
        ),
    decreases count - from,
{
    let labels = octet_labels(address, count);
    if from == count {
        assert(labels.skip(from) =~= Seq::<Seq<char>>::empty());
    } else {
        lemma_octet_labels_value(address, count, from + 1);
        let rest = labels.skip(from);
        assert(rest.drop_first() =~= labels.skip(from + 1));
        let m = (count - from - 1) as nat;
        let octet = octets_v4(address)[m as int];
        assert(rest[0] == decimal(octet as nat));
        lemma_decimal_reads_back(octet as nat);
        let high = top_octets(address, m);
        let s: u32 = (24 - 8 * m) as u32;
        assert(octet == ((address >> s) & 0xff) as u8);
        assert((((address >> s) & 0xff) as u8) as u32 == (address >> s) & 0xff) by (bit_vector);
        if m == 0 {
            assert((0u32 << 8u32) | ((address >> 24u32) & 0xff) == address >> 24u32)
                by (bit_vector);
        } else {
            let t: u32 = (32 - 8 * m) as u32;
            assert(((address >> t) << 8u32) | ((address >> s) & 0xff) == address >> s)
                by (bit_vector)
                requires
                    t == s + 8,
                    s <= 16,
            ;
        }
    }
}

/// The labels of the first nibbles of an address, from label `from` on, write
/// the nibbles before them.
pub proof fn lemma_nibble_labels_value(address: u128, count: nat, from: int)
    requires
        count <= 32,
        0 <= from <= count,
    ensures
        nibbles_value(nibble_labels(address, count).skip(from)) == Some(
            top_nibbles(address, (count - from) as nat),
        ),
    decreases count - from,
{
    let labels = nibble_labels(address, count);
    if from == count {
        assert(labels.skip(from) =~= Seq::<Seq<char>>::empty());
    } else {
        lemma_nibble_labels_value(address, count, from + 1);
        let rest = labels.skip(from);
        assert(rest.drop_first() =~= labels.skip(from + 1));
        let m = (count - from - 1) as nat;
        let nibble = nibble_v6(address, m as int);
        let s: u128 = (124 - 4 * m) as u128;
        assert(nibble == ((address >> s) & 0xf) as u8);
        assert((((address >> s) & 0xf) as u8) as u128 == (address >> s) & 0xf) by (bit_vector);
        assert((address >> s) & 0xf < 16) by (bit_vector);
        assert(rest[0] == seq![digit_char(nibble as nat)]);
        lemma_digit_reads_back(nibble as nat, 16);
        if m == 0 {
            assert((0u128 << 4u128) | ((address >> 124u128) & 0xf) == address >> 124u128)
                by (bit_vector);
        } else {
            let t: u128 = (128 - 4 * m) as u128;
            assert(((address >> t) << 4u128) | ((address >> s) & 0xf) == address >> s)
                by (bit_vector)
                requires
                    t == s + 4,
                    s <= 120,
            ;
        }
    }
}

/// The reverse name of an IPv4 prefix of 8, 16, 24 or 32 bits is read as that
/// prefix.
pub proof fn lemma_reverse_v4_round_trip(cidr: Ipv4CidrWrapper)
    requires
        cidr.wf(),
        cidr.length() == 8 || cidr.length() == 16 || cidr.length() == 24 || cidr.length() == 32,
    ensures
        reverse_v4_spec(reverse_name_v4(cidr.parts())) == Some(cidr.parts()),
{
    let address = cidr.address();
    let len = cidr.length();
    let count = (len / 8) as nat;
    let name = reverse_name_v4(cidr.parts());
    let labels = octet_labels(address, count);
    assert(address_labels(name) =~= labels);
    lemma_octet_labels_value(address, count, 0);
    assert(labels.skip(0) =~= labels);
    let t: u32 = (32 - len) as u32;
    let l: u32 = len as u32;
    assert(address & host_mask_v4(len) == 0);
    if len == 32 {
        assert((address >> 0u32) << 0u32 == address) by (bit_vector);
    } else {
        assert((address >> t) << t == address) by (bit_vector)
            requires
                address & (0xffff_ffffu32 >> l) == 0,
                t == 32 - l,
                8 <= l < 32,
        ;
    }
}

/// The reverse name of an IPv6 prefix of 4, 8, and so on up to 128 bits is
/// read as that prefix.
pub proof fn lemma_reverse_v6_round_trip(cidr: Ipv6CidrWrapper)
    requires
        cidr.wf(),
        1 <= cidr.length() / 4 <= 32,
        cidr.length() % 4 == 0,
    ensures
        reverse_v6_spec(reverse_name_v6(cidr.parts())) == Some(cidr.parts()),
{
    let address = cidr.address();
    let len = cidr.length();
    let count = (len / 4) as nat;
    let name = reverse_name_v6(cidr.parts());
    let labels = nibble_labels(address, count);
    assert(address_labels(name) =~= labels);
    lemma_nibble_labels_value(address, count, 0);
    assert(labels.skip(0) =~= labels);
    let t: u128 = (128 - len) as u128;
    let l: u128 = len as u128;
    assert(address & host_mask_v6(len) == 0);
    if len == 128 {
        assert((address >> 0u128) << 0u128 == address) by (bit_vector);
    } else {
        assert((address >> t) << t == address) by (bit_vector)
            requires
                address & (0xffff_ffff_ffff_ffff_ffff_ffff_ffff_ffffu128 >> l) == 0,
                t == 128 - l,
                4 <= l < 128,
        ;
    }
}

/// While the registry holds no delegation, no reverse name exists.
pub proof fn lemma_no_delegation_no_reverse_name(snapshot: SnapshotView, name: Seq<Seq<char>>)
    requires
        snapshot.trie4.inetnums == Map::<Seq<bool>, ResourceView>::empty(),
        snapshot.trie6.inetnums == Map::<Seq<bool>, ResourceView>::empty(),
    ensures
        reverse_v4_answer(snapshot, name) == refusal(ResponseCode::NXDomain),
        reverse_v6_answer(snapshot, name) == refusal(ResponseCode::NXDomain),
{
    match reverse_v4_spec(name) {
        Some(cidr) => {
            lemma_covering_nothing(prefix_v4(cidr), prefix_v4(cidr).len() + 1);
        },
        None => {},
    }
    match reverse_v6_spec(name) {
        Some(cidr) => {
            lemma_covering_nothing(prefix_v6(cidr), prefix_v6(cidr).len() + 1);
        },
        None => {},
    }
}

} // verus!
