//! A host's snapshot as the aggregator stores it.
use vstd::prelude::*;
use crate::gpu::ServerCardsInfo;

verus! {

/// One poll of one host.
///
/// The keyed parts are lists of pairs in which a later pair shadows an
/// earlier one of the same key. CPU readings are in millionths: of the whole
/// for the load fractions, of a degree for `temp`.
pub struct ServerInfo {
    pub password: String,
    pub gpu: ServerCardsInfo,
    pub hostname: String,
    pub net: Vec<(String, String)>,
    pub mem: Vec<(String, String)>,
    pub swap: Vec<(String, String)>,
    pub cpu: Vec<(String, u64)>,
    pub other: Vec<(String, String)>,
}

/// The value of `key` in a list of pairs: that of its last pair.
pub open spec fn lookup<V>(pairs: Seq<(String, V)>, key: Seq<char>) -> Option<V>
    decreases pairs.len(),
{
    if pairs.len() == 0 {
        None
    } else if pairs.last().0@ == key {
        Some(pairs.last().1)
    } else {
        lookup(pairs.drop_last(), key)
    }
}

/// The index of the pair that gives `key` its value.
pub fn find_key<V>(pairs: &Vec<(String, V)>, key: &str) -> (r: Option<usize>)
    ensures
        match r {
            Some(i) => i < pairs@.len() && lookup(pairs@, key@) == Some(pairs@[i as int].1),
            None => lookup(pairs@, key@) is None,
        },
{
    let k = key.to_string();
    let mut i: usize = pairs.len();
    assert(pairs@.subrange(0, i as int) =~= pairs@);
    while i > 0
        invariant
            i <= pairs@.len(),
            k@ == key@,
            lookup(pairs@, key@) == lookup(pairs@.subrange(0, i as int), key@),
        decreases i,
    {
        let ghost pre = pairs@.subrange(0, i as int);
        assert(pre.drop_last() =~= pairs@.subrange(0, i - 1));
        if pairs[i - 1].0 == k {
            return Some(i - 1);
        }
        i = i - 1;
    }
    None
}

pub open spec fn new_nowtime_key() -> Seq<char> {
    "new_nowtime"@
}

impl ServerInfo {
    /// Records the time at which the aggregator received this snapshot.
    pub fn stamp(&mut self, server_time: &str)
        ensures
            final(self).other@.drop_last() == old(self).other@,
            final(self).other@.len() == old(self).other@.len() + 1,
            final(self).other@.last().0@ == new_nowtime_key(),
            final(self).other@.last().1@ == server_time@,
            lookup(final(self).other@, new_nowtime_key()) matches Some(t) && t@ == server_time@,
            final(self).password == old(self).password,
            final(self).hostname == old(self).hostname,
            final(self).gpu == old(self).gpu,
            final(self).net == old(self).net,
            final(self).mem == old(self).mem,
            final(self).swap == old(self).swap,
            final(self).cpu == old(self).cpu,
    {
        let key = "new_nowtime".to_string();
        let value = server_time.to_string();
        self.other.push((key, value));
    }
}

} // verus!
