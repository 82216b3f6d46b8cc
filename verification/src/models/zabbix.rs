use crate::utils::text::{starts_with, str_eq, str_starts_with};
use vstd::prelude::*;

verus! {

/// The envelope in which the monitoring source hands out its hosts.
#[derive(Debug)]
pub struct ZabbixResponse {
    pub jsonrpc: Option<String>,
    pub result: Vec<ZabbixHost>,
    pub id: Option<i32>,
}

/// A host of the monitoring source, with the groups it belongs to.
#[derive(Debug, Clone)]
pub struct ZabbixHost {
    pub hostid: String,
    pub host: String,
    pub name: String,
    pub groups: Vec<ZabbixGroup>,
}

/// A group of the monitoring source.
#[derive(Debug, Clone)]
pub struct ZabbixGroup {
    pub groupid: String,
    pub name: String,
    pub internal: Option<String>,
    pub flags: Option<String>,
    pub uuid: Option<String>,
}

/// The groups of `groups` whose name begins with `prefix`, in order.
pub open spec fn groups_with_prefix(groups: Seq<ZabbixGroup>, prefix: Seq<char>) -> Seq<
    ZabbixGroup,
> {
    groups.filter(|g: ZabbixGroup| starts_with(g.name@, prefix))
}

impl ZabbixHost {
    /// The first group of the host with the given id.
    pub fn get_group_by_id(&self, id: &str) -> (found: Option<&ZabbixGroup>)
        ensures
            match found {
                Some(g) => exists|i: int|
                    0 <= i < self.groups.len() && self.groups[i] == *g
                        && #[trigger] self.groups[i].groupid@ == id@
                        && forall|j: int| 0 <= j < i ==> #[trigger] self.groups[j].groupid@ != id@,
                None => forall|j: int|
                    0 <= j < self.groups.len() ==> #[trigger] self.groups[j].groupid@ != id@,
            },
    {
        let mut i: usize = 0;
        while i < self.groups.len()
            invariant
                i <= self.groups.len(),
                forall|j: int| 0 <= j < i ==> #[trigger] self.groups[j].groupid@ != id@,
            decreases self.groups.len() - i,
        {
            if str_eq(self.groups[i].groupid.as_str(), id) {
                return Some(&self.groups[i]);
            }
            i += 1;
        }
        None
    }

    /// The groups of the host whose name begins with `prefix`, in order.
    pub fn get_groups_by_name_prefix(&self, prefix: &str) -> (found: Vec<&ZabbixGroup>)
        ensures
            found@.map_values(|g: &ZabbixGroup| *g) == groups_with_prefix(self.groups@, prefix@),
    {
        let mut found: Vec<&ZabbixGroup> = Vec::new();
        let mut i: usize = 0;
        while i < self.groups.len()
            invariant
                i <= self.groups.len(),
                found@.map_values(|g: &ZabbixGroup| *g) == groups_with_prefix(
                    self.groups@.take(i as int),
                    prefix@,
                ),
            decreases self.groups.len() - i,
        {
            proof {
                assert(self.groups@.take(i + 1).drop_last() == self.groups@.take(i as int));
                reveal(Seq::filter);
            }
            let ghost before = found@;
            if str_starts_with(self.groups[i].name.as_str(), prefix) {
                found.push(&self.groups[i]);
                assert(found@.map_values(|g: &ZabbixGroup| *g) == before.map_values(
                    |g: &ZabbixGroup| *g,
                ).push(self.groups[i as int]));
            }
            i += 1;
        }
        assert(self.groups@.take(i as int) == self.groups@);
        found
    }
}

} // verus!
