use vstd::prelude::*;
use vstd::string::*;
use crate::error::ProvisionError;
use crate::net::{Endpoint, IpAddress};
use crate::text::{
    lemma_text_lt_irreflexive, lemma_text_lt_transitive, text_eq, text_less, text_lt,
};

verus! {

/// Ports offered for one entry of a protocol group.
#[derive(Debug)]
pub struct GroupDetails {
    pub ports: Vec<i32>,
}

/// A protocol group of the catalog: its name and its entries.
#[derive(Debug)]
pub struct ProtocolGroup {
    pub name: String,
    pub entries: Vec<GroupDetails>,
}

/// One exit server: its address and the name that its certificate carries.
#[derive(Debug)]
pub struct ServerDetails {
    pub ip: IpAddress,
    pub cn: String,
}

/// The servers of a region that speak one protocol.
#[derive(Debug)]
pub struct ServerGroup {
    pub name: String,
    pub servers: Vec<ServerDetails>,
}

/// An exit region.
#[derive(Debug)]
pub struct Region {
    pub id: String,
    pub name: String,
    pub port_forward: bool,
    pub offline: bool,
    pub servers: Vec<ServerGroup>,
}

/// The provider's catalog: protocol groups and regions.
#[derive(Debug)]
pub struct ServerList {
    pub groups: Vec<ProtocolGroup>,
    pub regions: Vec<Region>,
}

/// What a transport needs to reach the exit server of a region.
#[derive(Debug)]
pub struct ConnectionPlan {
    pub region: Region,
    /// Host name to present for TLS and to pin to `address`.
    pub host: String,
    pub address: Endpoint,
}

/// Name of the protocol group that carries WireGuard.
pub open spec fn tunnel_group() -> Seq<char> {
    seq!['w', 'g']
}

/// `i` is the first position whose name is `key`.
pub open spec fn is_first_match(names: Seq<Seq<char>>, key: Seq<char>, i: int) -> bool {
    &&& 0 <= i < names.len()
    &&& names[i] == key
    &&& forall|j: int| 0 <= j < i ==> names[j] != key
}

/// The first position whose name is `key`, if any.
pub open spec fn first_match(names: Seq<Seq<char>>, key: Seq<char>) -> Option<int> {
    if exists|i: int| is_first_match(names, key, i) {
        Some(choose|i: int| is_first_match(names, key, i))
    } else {
        None
    }
}

pub open spec fn group_names(groups: Seq<ProtocolGroup>) -> Seq<Seq<char>> {
    groups.map_values(|g: ProtocolGroup| g.name@)
}

pub open spec fn server_group_names(groups: Seq<ServerGroup>) -> Seq<Seq<char>> {
    groups.map_values(|g: ServerGroup| g.name@)
}

pub open spec fn region_ids(regions: Seq<Region>) -> Seq<Seq<char>> {
    regions.map_values(|r: Region| r.id@)
}

/// The first port of the first entry of the tunnel protocol group.
pub open spec fn tunnel_port(groups: Seq<ProtocolGroup>) -> Option<i32> {
    match first_match(group_names(groups), tunnel_group()) {
        Some(i) => {
            let entries = groups[i].entries@;
            if entries.len() > 0 && entries[0].ports@.len() > 0 {
                Some(entries[0].ports@[0])
            } else {
                None
            }
        },
        None => None,
    }
}

/// The first server of the region's tunnel protocol group.
pub open spec fn tunnel_server(region: Region) -> Option<ServerDetails> {
    match first_match(server_group_names(region.servers@), tunnel_group()) {
        Some(i) => {
            let servers = region.servers@[i].servers@;
            if servers.len() > 0 {
                Some(servers[0])
            } else {
                None
            }
        },
        None => None,
    }
}

/// `prefix` is what comes before the first newline of `raw`.
pub open spec fn is_json_prefix(raw: Seq<char>, prefix: Seq<char>) -> bool {
    &&& prefix.len() < raw.len()
    &&& raw[prefix.len() as int] == '\n'
    &&& raw.subrange(0, prefix.len() as int) == prefix
    &&& forall|j: int| 0 <= j < prefix.len() ==> prefix[j] != '\n'
}

/// Relies on str::split_once: splits at the first occurrence of the delimiter,
/// or gives None when it does not occur.
#[verifier::external_body]
fn split_first_newline(s: &str) -> (r: Option<(&str, &str)>)
    ensures
        match r {
            Some((a, b)) => s@ == a@ + seq!['\n'] + b@ && !a@.contains('\n'),
            None => !s@.contains('\n'),
        },
{
    s.split_once('\n')
}

/// The JSON part of a catalog payload: everything before the first newline.
/// The rest is a signature trailer and is not read.
pub fn catalog_json_prefix(raw: &str) -> (r: Result<&str, ProvisionError>)
    ensures
        match r {
            Ok(p) => is_json_prefix(raw@, p@),
            Err(e) => e is CatalogParse && !raw@.contains('\n'),
        },
{
    match split_first_newline(raw) {
        Some((head, _)) => {
            assert(raw@.subrange(0, head@.len() as int) =~= head@);
            assert(raw@[head@.len() as int] == '\n');
            Ok(head)
        },
        None => Err(ProvisionError::CatalogParse(String::from_str("no newline before the trailer"))),
    }
}

/// The port for WireGuard connections: the first port listed by the tunnel
/// protocol group.
pub fn resolve_port(groups: &Vec<ProtocolGroup>) -> (r: Result<i32, ProvisionError>)
    ensures
        match tunnel_port(groups@) {
            Some(p) => r == Ok::<i32, ProvisionError>(p),
            None => r matches Err(ProvisionError::PortResolution),
        },
{
    let ghost names = group_names(groups@);
    let mut i: usize = 0;
    while i < groups.len()
        invariant
            i <= groups@.len(),
            names == group_names(groups@),
            forall|j: int| 0 <= j < i ==> names[j] != tunnel_group(),
        decreases groups@.len() - i,
    {
        proof {
            reveal_strlit("wg");
            assert("wg"@ =~= tunnel_group());
            assert(names[i as int] == groups@[i as int].name@);
        }
        if text_eq(groups[i].name.as_str(), "wg") {
            assert(is_first_match(names, tunnel_group(), i as int));
            assert(first_match(names, tunnel_group()) == Some(i as int));
            let entries = &groups[i].entries;
            if entries.len() > 0 && entries[0].ports.len() > 0 {
                return Ok(entries[0].ports[0]);
            } else {
                return Err(ProvisionError::PortResolution);
            }
        }
        i = i + 1;
    }
    Err(ProvisionError::PortResolution)
}

/// Position of the first region whose identifier is `id`.
fn find_region(regions: &Vec<Region>, id: &str) -> (r: Option<usize>)
    ensures
        match r {
            Some(i) => first_match(region_ids(regions@), id@) == Some(i as int),
            None => first_match(region_ids(regions@), id@) is None,
        },
{
    let ghost ids = region_ids(regions@);
    let mut i: usize = 0;
    while i < regions.len()
        invariant
            i <= regions@.len(),
            ids == region_ids(regions@),
            forall|j: int| 0 <= j < i ==> ids[j] != id@,
        decreases regions@.len() - i,
    {
        assert(ids[i as int] == regions@[i as int].id@);
        if text_eq(regions[i].id.as_str(), id) {
            assert(is_first_match(ids, id@, i as int));
            assert(first_match(ids, id@) == Some(i as int));
            return Some(i);
        }
        i = i + 1;
    }
    None
}

/// The region whose identifier is `id`, taken out of the list. Identifiers
/// are compared exactly.
pub fn select_region(mut regions: Vec<Region>, id: &str) -> (r: Result<Region, ProvisionError>)
    ensures
        match first_match(region_ids(regions@), id@) {
            Some(i) => r == Ok::<Region, ProvisionError>(regions@[i]),
            None => match r {
                Err(ProvisionError::RegionNotFound(m)) => m@ == id@,
                _ => false,
            },
        },
{
    match find_region(&regions, id) {
        Some(i) => {
            assert(is_first_match(region_ids(regions@), id@, i as int));
            Ok(regions.swap_remove(i))
        },
        None => Err(ProvisionError::RegionNotFound(String::from_str(id))),
    }
}

/// The region at a position of the list, taken out of it.
pub fn region_at(regions: Vec<Region>, index: usize) -> (r: Option<Region>)
    ensures
        index < regions@.len() ==> r == Some(regions@[index as int]),
        index >= regions@.len() ==> r is None,
{
    let mut list = regions;
    if index < list.len() {
        Some(list.swap_remove(index))
    } else {
        None
    }
}

/// Position of the region's tunnel protocol server group.
fn find_tunnel_group(region: &Region) -> (r: Option<usize>)
    ensures
        match r {
            Some(i) => first_match(server_group_names(region.servers@), tunnel_group()) == Some(
                i as int,
            ) && i < region.servers@.len(),
            None => first_match(server_group_names(region.servers@), tunnel_group()) is None,
        },
{
    let ghost names = server_group_names(region.servers@);
    let mut i: usize = 0;
    while i < region.servers.len()
        invariant
            i <= region.servers@.len(),
            names == server_group_names(region.servers@),
            forall|j: int| 0 <= j < i ==> names[j] != tunnel_group(),
        decreases region.servers@.len() - i,
    {
        proof {
            reveal_strlit("wg");
            assert("wg"@ =~= tunnel_group());
            assert(names[i as int] == region.servers@[i as int].name@);
        }
        if text_eq(region.servers[i].name.as_str(), "wg") {
            assert(is_first_match(names, tunnel_group(), i as int));
            assert(first_match(names, tunnel_group()) == Some(i as int));
            return Some(i);
        }
        i = i + 1;
    }
    None
}

/// Decides how to reach a region: refuses an offline region before anything
/// else, then picks the first tunnel server and pins its address to `port`.
pub fn plan_connection(region: Region, port: i32) -> (r: Result<ConnectionPlan, ProvisionError>)
    ensures
        region.offline ==> match r {
            Err(ProvisionError::RegionOffline(m)) => m@ == region.id@,
            _ => false,
        },
        !region.offline ==> match tunnel_server(region) {
            None => match r {
                Err(ProvisionError::RegionNotFound(m)) => m@ == region.id@,
                _ => false,
            },
            Some(s) => if 0 <= port <= 65535 {
                match r {
                    Ok(p) => p.region == region && p.host@ == s.cn@ && p.address == (Endpoint {
                        ip: s.ip,
                        port: port as u16,
                    }),
                    Err(_) => false,
                }
            } else {
                r matches Err(ProvisionError::TransportBuild(_))
            },
        },
{
    if region.offline {
        return Err(ProvisionError::RegionOffline(region.id.clone()));
    }
    match find_tunnel_group(&region) {
        None => Err(ProvisionError::RegionNotFound(region.id.clone())),
        Some(g) => {
            if region.servers[g].servers.len() == 0 {
                return Err(ProvisionError::RegionNotFound(region.id.clone()));
            }
            if port < 0 || port > 65535 {
                return Err(
                    ProvisionError::TransportBuild(String::from_str("port out of range")),
                );
            }
            let host = region.servers[g].servers[0].cn.clone();
            let ip = region.servers[g].servers[0].ip;
            Ok(ConnectionPlan { region, host, address: Endpoint { ip, port: port as u16 } })
        },
    }
}

/// Where a region with identifier `key` goes in a list sorted by identifier:
/// after every entry that does not come after it.
pub open spec fn insert_index(ids: Seq<Seq<char>>, key: Seq<char>) -> int
    decreases ids.len(),
{
    if ids.len() == 0 || text_lt(key, ids[0]) {
        0
    } else {
        1 + insert_index(ids.drop_first(), key)
    }
}

/// The regions in ascending ordinal order of identifier; regions with equal
/// identifiers keep their order.
pub open spec fn sort_by_id(regions: Seq<Region>) -> Seq<Region>
    decreases regions.len(),
{
    if regions.len() == 0 {
        regions
    } else {
        let rest = sort_by_id(regions.drop_last());
        rest.insert(insert_index(region_ids(rest), regions.last().id@), regions.last())
    }
}

proof fn lemma_insert_index_bounds(ids: Seq<Seq<char>>, key: Seq<char>)
    ensures
        0 <= insert_index(ids, key) <= ids.len(),
    decreases ids.len(),
{
    if ids.len() > 0 {
        lemma_insert_index_bounds(ids.drop_first(), key);
    }
}

proof fn lemma_sort_len(regions: Seq<Region>)
    ensures
        sort_by_id(regions).len() == regions.len(),
    decreases regions.len(),
{
    if regions.len() > 0 {
        lemma_sort_len(regions.drop_last());
        let rest = sort_by_id(regions.drop_last());
        lemma_insert_index_bounds(region_ids(rest), regions.last().id@);
    }
}

/// Position at which `region` goes into `sorted`.
fn insertion_point(sorted: &Vec<Region>, region: &Region) -> (r: usize)
    ensures
        r as int == insert_index(region_ids(sorted@), region.id@),
        r <= sorted@.len(),
{
    let ghost ids = region_ids(sorted@);
    let mut j: usize = 0;
    assert(ids.skip(0) =~= ids);
    while j < sorted.len() && !text_less(region.id.as_str(), sorted[j].id.as_str())
        invariant
            j <= sorted@.len(),
            ids == region_ids(sorted@),
            insert_index(ids, region.id@) == j + insert_index(ids.skip(j as int), region.id@),
        decreases sorted@.len() - j,
    {
        proof {
            let tail = ids.skip(j as int);
            assert(tail[0] == sorted@[j as int].id@);
            assert(tail.drop_first() =~= ids.skip(j + 1));
        }
        j = j + 1;
    }
    proof {
        let tail = ids.skip(j as int);
        if j < sorted.len() {
            assert(tail[0] == sorted@[j as int].id@);
        } else {
            assert(tail.len() == 0);
        }
    }
    j
}

/// The regions in ascending ordinal order of identifier, as offered for
/// interactive choice.
pub fn sort_regions(regions: Vec<Region>) -> (r: Vec<Region>)
    ensures
        r@ == sort_by_id(regions@),
{
    let ghost all = regions@;
    assert(all.len() == regions.len());
    let mut rest = regions;
    let mut out: Vec<Region> = Vec::new();
    let mut i: usize = 0;
    while rest.len() > 0
        invariant
            i <= all.len(),
            all.len() <= usize::MAX,
            rest@ == all.skip(i as int),
            out@ == sort_by_id(all.take(i as int)),
        decreases rest@.len(),
    {
        let region = rest.remove(0);
        proof {
            lemma_sort_len(all.take(i as int));
        }
        let j = insertion_point(&out, &region);
        out.insert(j, region);
        proof {
            let next = all.take(i + 1);
            assert(next.drop_last() =~= all.take(i as int));
            assert(next.last() == region);
            assert(rest@ =~= all.skip(i + 1));
        }
        i = i + 1;
    }
    assert(all.take(i as int) =~= all);
    out
}

/// Selection by identifier is exact: a found region carries the identifier
/// asked for, and when none is found no region carries it.
pub proof fn lemma_select_exact(regions: Seq<Region>, id: Seq<char>)
    ensures
        match first_match(region_ids(regions), id) {
            Some(i) => 0 <= i < regions.len() && regions[i].id@ == id,
            None => forall|j: int| 0 <= j < regions.len() ==> regions[j].id@ != id,
        },
{
    let ids = region_ids(regions);
    match first_match(ids, id) {
        Some(i) => {
            assert(is_first_match(ids, id, i));
        },
        None => {
            assert forall|j: int| 0 <= j < regions.len() implies regions[j].id@ != id by {
                if regions[j].id@ == id {
                    assert(ids[j] == id);
                    lemma_first_exists(ids, id, j);
                }
            }
        },
    }
}

proof fn lemma_first_exists(names: Seq<Seq<char>>, key: Seq<char>, j: int)
    requires
        0 <= j < names.len(),
        names[j] == key,
    ensures
        first_match(names, key) is Some,
    decreases j,
{
    if forall|l: int| 0 <= l < j ==> names[l] != key {
        assert(is_first_match(names, key, j));
    } else {
        let l = choose|l: int| 0 <= l < j && names[l] == key;
        lemma_first_exists(names, key, l);
    }
}

/// Sorting depends on the list alone, and keeps every region: two calls on
/// equal lists give equal lists of the same length.
pub proof fn lemma_sort_deterministic(a: Seq<Region>, b: Seq<Region>)
    requires
        a == b,
    ensures
        sort_by_id(a) == sort_by_id(b),
        sort_by_id(a).len() == a.len(),
{
    lemma_sort_len(a);
}

/// No region comes after a region that follows it.
pub open spec fn sorted_by_id(regions: Seq<Region>) -> bool {
    forall|i: int, j: int|
        0 <= i < j < regions.len() ==> !text_lt(#[trigger] regions[j].id@, #[trigger] regions[i].id@)
}

proof fn lemma_insert_index_props(ids: Seq<Seq<char>>, key: Seq<char>)
    ensures
        forall|i: int| 0 <= i < insert_index(ids, key) ==> !text_lt(key, #[trigger] ids[i]),
        insert_index(ids, key) < ids.len() ==> text_lt(key, ids[insert_index(ids, key)]),
    decreases ids.len(),
{
    lemma_insert_index_bounds(ids, key);
    if ids.len() > 0 && !text_lt(key, ids[0]) {
        let rest = ids.drop_first();
        lemma_insert_index_props(rest, key);
        assert forall|i: int| 0 <= i < insert_index(ids, key) implies !text_lt(key, #[trigger] ids[i]) by {
            if i > 0 {
                assert(ids[i] == rest[i - 1]);
            }
        }
        let q = insert_index(rest, key);
        lemma_insert_index_bounds(rest, key);
        if q < rest.len() {
            assert(ids[q + 1] == rest[q]);
        }
    }
}

proof fn lemma_insert_sorted(s: Seq<Region>, x: Region)
    requires
        sorted_by_id(s),
    ensures
        sorted_by_id(s.insert(insert_index(region_ids(s), x.id@), x)),
{
    let ids = region_ids(s);
    let p = insert_index(ids, x.id@);
    lemma_insert_index_bounds(ids, x.id@);
    lemma_insert_index_props(ids, x.id@);
    let t = s.insert(p, x);
    assert forall|i: int, j: int| 0 <= i < j < t.len() implies !text_lt(
        #[trigger] t[j].id@,
        #[trigger] t[i].id@,
    ) by {
        if j < p {
            assert(t[i] == s[i] && t[j] == s[j]);
        } else if j == p {
            assert(t[i] == s[i]);
            assert(ids[i] == s[i].id@);
        } else if i > p {
            assert(t[i] == s[i - 1] && t[j] == s[j - 1]);
        } else if i == p {
            assert(t[j] == s[j - 1]);
            assert(ids[p] == s[p].id@);
            if text_lt(s[j - 1].id@, x.id@) {
                lemma_text_lt_transitive(s[j - 1].id@, x.id@, s[p].id@);
                lemma_text_lt_irreflexive(s[p].id@);
            }
        } else {
            assert(t[i] == s[i] && t[j] == s[j - 1]);
        }
    }
}

proof fn lemma_sort_sorted(regions: Seq<Region>)
    ensures
        sorted_by_id(sort_by_id(regions)),
    decreases regions.len(),
{
    if regions.len() > 0 {
        lemma_sort_sorted(regions.drop_last());
        lemma_insert_sorted(sort_by_id(regions.drop_last()), regions.last());
    }
}

proof fn lemma_sort_of_sorted(regions: Seq<Region>)
    requires
        sorted_by_id(regions),
    ensures
        sort_by_id(regions) == regions,
    decreases regions.len(),
{
    if regions.len() > 0 {
        let rest = regions.drop_last();
        let x = regions.last();
        assert(sorted_by_id(rest)) by {
            assert forall|i: int, j: int| 0 <= i < j < rest.len() implies !text_lt(
                #[trigger] rest[j].id@,
                #[trigger] rest[i].id@,
            ) by {
                assert(rest[i] == regions[i] && rest[j] == regions[j]);
            }
        }
        lemma_sort_of_sorted(rest);
        let ids = region_ids(rest);
        lemma_insert_index_bounds(ids, x.id@);
        lemma_insert_index_props(ids, x.id@);
        if insert_index(ids, x.id@) < rest.len() {
            let p = insert_index(ids, x.id@);
            assert(ids[p] == regions[p].id@);
            assert(!text_lt(regions[regions.len() - 1].id@, regions[p].id@));
        }
        assert(rest.insert(rest.len() as int, x) =~= regions);
    }
}

/// Sorting orders the regions by identifier, and sorting again changes
/// nothing: repeated calls give the same list.
pub proof fn lemma_sort_stable(regions: Seq<Region>)
    ensures
        sorted_by_id(sort_by_id(regions)),
        sort_by_id(sort_by_id(regions)) == sort_by_id(regions),
{
    lemma_sort_sorted(regions);
    lemma_sort_of_sorted(sort_by_id(regions));
}

} // verus!
