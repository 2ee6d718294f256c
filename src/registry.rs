//! The aggregator's registry: the latest snapshot of each host, each entry
//! expiring a fixed time after it was last written.
use vstd::prelude::*;
use crate::snapshot::ServerInfo;
use crate::text::chars_of;
use crate::host::push_str;
use crate::text::string_of;

verus! {

/// The secret that agents send with their snapshots.
pub const PASSWORD: &'static str = "123456";

/// Seconds that an entry lives after its last write.
pub const TTL_SECS: u64 = 60;

/// Lexicographic order of character sequences, by code point; the order of
/// `String`.
pub open spec fn lex_lt(a: Seq<char>, b: Seq<char>) -> bool
    decreases a.len(),
{
    if a.len() == 0 {
        b.len() > 0
    } else if b.len() == 0 {
        false
    } else if a[0] != b[0] {
        a[0] < b[0]
    } else {
        lex_lt(a.drop_first(), b.drop_first())
    }
}

pub proof fn lemma_lex_irreflexive(a: Seq<char>)
    ensures
        !lex_lt(a, a),
    decreases a.len(),
{
    if a.len() > 0 {
        lemma_lex_irreflexive(a.drop_first());
    }
}

pub proof fn lemma_lex_total(a: Seq<char>, b: Seq<char>)
    requires
        a != b,
        !lex_lt(a, b),
    ensures
        lex_lt(b, a),
    decreases a.len(),
{
    if a.len() == 0 {
        assert(b.len() == 0 ==> a =~= b);
    } else if b.len() == 0 {
    } else if a[0] != b[0] {
    } else {
        if a.drop_first() == b.drop_first() {
            assert(a =~= seq![a[0]] + a.drop_first());
            assert(b =~= seq![b[0]] + b.drop_first());
        }
        lemma_lex_total(a.drop_first(), b.drop_first());
    }
}

pub proof fn lemma_lex_transitive(a: Seq<char>, b: Seq<char>, c: Seq<char>)
    requires
        lex_lt(a, b),
        lex_lt(b, c),
    ensures
        lex_lt(a, c),
    decreases a.len(),
{
    if a.len() > 0 && b.len() > 0 && c.len() > 0 && a[0] == b[0] && b[0] == c[0] {
        lemma_lex_transitive(a.drop_first(), b.drop_first(), c.drop_first());
    }
}

pub fn lex_less(a: &Vec<char>, b: &Vec<char>) -> (r: bool)
    ensures
        r == lex_lt(a@, b@),
{
    let mut i: usize = 0;
    assert(a@.subrange(0, a@.len() as int) =~= a@);
    assert(b@.subrange(0, b@.len() as int) =~= b@);
    while i < a.len() && i < b.len() && a[i] == b[i]
        invariant
            i <= a@.len(),
            i <= b@.len(),
            lex_lt(a@, b@) == lex_lt(
                a@.subrange(i as int, a@.len() as int),
                b@.subrange(i as int, b@.len() as int),
            ),
        decreases a@.len() - i,
    {
        let ghost sa = a@.subrange(i as int, a@.len() as int);
        let ghost sb = b@.subrange(i as int, b@.len() as int);
        assert(sa.drop_first() =~= a@.subrange(i + 1, a@.len() as int));
        assert(sb.drop_first() =~= b@.subrange(i + 1, b@.len() as int));
        i = i + 1;
    }
    let ghost sa = a@.subrange(i as int, a@.len() as int);
    let ghost sb = b@.subrange(i as int, b@.len() as int);
    if i == a.len() {
        i < b.len()
    } else if i == b.len() {
        false
    } else {
        assert(sa[0] == a@[i as int] && sb[0] == b@[i as int]);
        a[i] < b[i]
    }
}

/// One host's entry: its latest snapshot and the time at which it expires.
pub struct RegistryEntry {
    pub hostname: String,
    pub info: ServerInfo,
    pub expires_at: u64,
}

pub open spec fn has_key(s: Seq<RegistryEntry>, h: Seq<char>) -> bool {
    exists|i: int| 0 <= i < s.len() && s[i].hostname@ == h
}

pub open spec fn key_index(s: Seq<RegistryEntry>, h: Seq<char>) -> int {
    choose|i: int| 0 <= i < s.len() && s[i].hostname@ == h
}

/// The entries as a map from hostname to snapshot and expiry time.
pub open spec fn entries_map(s: Seq<RegistryEntry>) -> Map<Seq<char>, (ServerInfo, u64)> {
    Map::new(
        |h: Seq<char>| has_key(s, h),
        |h: Seq<char>| (s[key_index(s, h)].info, s[key_index(s, h)].expires_at),
    )
}

/// Hostnames strictly increasing, hence each at most once.
pub open spec fn keys_sorted(s: Seq<RegistryEntry>) -> bool {
    forall|i: int, j: int|
        0 <= i < j < s.len() ==> lex_lt(#[trigger] s[i].hostname@, #[trigger] s[j].hostname@)
}

/// The expiry of an entry written at `now` with lifetime `ttl`, held at the
/// largest time the clock can give.
pub open spec fn expiry(now: u64, ttl: u64) -> u64 {
    if now + ttl > u64::MAX {
        u64::MAX
    } else {
        (now + ttl) as u64
    }
}

/// The entries of `m` that have not expired at `now`.
pub open spec fn prune(m: Map<Seq<char>, (ServerInfo, u64)>, now: int) -> Map<
    Seq<char>,
    (ServerInfo, u64),
> {
    Map::new(|h: Seq<char>| m.contains_key(h) && now <= m[h].1, |h: Seq<char>| m[h])
}

/// The registry `m` after `h` wrote `info` at `now`: the entries expired by
/// then are gone, and `h` maps to `info` with a fresh lifetime.
pub open spec fn put_spec(
    m: Map<Seq<char>, (ServerInfo, u64)>,
    h: Seq<char>,
    info: ServerInfo,
    now: u64,
    ttl: u64,
) -> Map<Seq<char>, (ServerInfo, u64)> {
    prune(m, now as int).insert(h, (info, expiry(now, ttl)))
}

/// An entry is live until the clock passes its expiry.
pub open spec fn is_live(m: Map<Seq<char>, (ServerInfo, u64)>, h: Seq<char>, now: int) -> bool {
    m.contains_key(h) && now <= m[h].1
}

/// What a read of `h` at `now` sees.
pub open spec fn get_spec(m: Map<Seq<char>, (ServerInfo, u64)>, h: Seq<char>, now: int) -> Option<
    ServerInfo,
> {
    if is_live(m, h, now) {
        Some(m[h].0)
    } else {
        None
    }
}

/// `x` is `info` with the receipt time `t` recorded under `new_nowtime`.
pub open spec fn stamped_from(x: ServerInfo, info: ServerInfo, t: Seq<char>) -> bool {
    &&& x.password == info.password
    &&& x.hostname == info.hostname
    &&& x.gpu == info.gpu
    &&& x.net == info.net
    &&& x.mem == info.mem
    &&& x.swap == info.swap
    &&& x.cpu == info.cpu
    &&& x.other@.len() == info.other@.len() + 1
    &&& x.other@.drop_last() == info.other@
    &&& x.other@.last().0@ == "new_nowtime"@
    &&& x.other@.last().1@ == t
}

/// `s` lists, in increasing hostname order, exactly the entries of `m` that
/// are live at `now`.
pub open spec fn lists_live(
    m: Map<Seq<char>, (ServerInfo, u64)>,
    s: Seq<&RegistryEntry>,
    now: int,
) -> bool {
    &&& forall|i: int|
        0 <= i < s.len() ==> is_live(m, #[trigger] s[i].hostname@, now) && m[s[i].hostname@] == (
        s[i].info,
        s[i].expires_at,
    )
    &&& forall|h: Seq<char>|
        #[trigger] is_live(m, h, now) ==> exists|i: int| 0 <= i < s.len() && s[i].hostname@ == h
    &&& forall|i: int, j: int|
        0 <= i < j < s.len() ==> lex_lt(#[trigger] s[i].hostname@, #[trigger] s[j].hostname@)
}

/// An entry written at `t` is seen by every read before `t + ttl`, and by
/// none after it, where no write of the same host comes between.
pub proof fn lemma_entry_lifetime(
    m: Map<Seq<char>, (ServerInfo, u64)>,
    info: ServerInfo,
    t: u64,
    ttl: u64,
    eps: int,
)
    requires
        t + ttl <= u64::MAX,
        0 < eps,
    ensures
        get_spec(put_spec(m, info.hostname@, info, t, ttl), info.hostname@, t + ttl - eps) == Some(
            info,
        ),
        get_spec(put_spec(m, info.hostname@, info, t, ttl), info.hostname@, t + ttl + eps) is None,
{
}

/// Writing the same snapshot twice leaves one entry for the host, whose
/// lifetime runs from the second write: lifetimes restart, they do not add up.
pub proof fn lemma_rewrite_restarts(
    m: Map<Seq<char>, (ServerInfo, u64)>,
    info: ServerInfo,
    t1: u64,
    t2: u64,
    ttl: u64,
)
    requires
        t1 <= t2,
    ensures
        put_spec(put_spec(m, info.hostname@, info, t1, ttl), info.hostname@, info, t2, ttl)
            == put_spec(m, info.hostname@, info, t2, ttl),
        put_spec(put_spec(m, info.hostname@, info, t1, ttl), info.hostname@, info, t2, ttl).dom()
            == prune(m, t2 as int).dom().insert(info.hostname@),
{
    let h = info.hostname@;
    let a = put_spec(put_spec(m, h, info, t1, ttl), h, info, t2, ttl);
    let b = put_spec(m, h, info, t2, ttl);
    assert forall|k: Seq<char>| a.contains_key(k) == b.contains_key(k) by {
        if k != h && b.contains_key(k) {
            assert(prune(m, t1 as int).contains_key(k));
        }
    }
    assert(put_spec(put_spec(m, h, info, t1, ttl), h, info, t2, ttl) =~= put_spec(
        m,
        h,
        info,
        t2,
        ttl,
    ));
    assert(put_spec(m, h, info, t2, ttl).dom() =~= prune(m, t2 as int).dom().insert(h));
}

/// Of two hosts, one silent for a whole lifetime since its last write and one
/// that wrote again within it, a read now sees the second and not the first.
pub proof fn lemma_silent_host_expires(
    m: Map<Seq<char>, (ServerInfo, u64)>,
    silent: Seq<char>,
    last_write: u64,
    info: ServerInfo,
    t: u64,
    ttl: u64,
    now: int,
)
    requires
        m.contains_key(silent) ==> m[silent].1 == expiry(last_write, ttl),
        last_write + ttl < now,
        silent != info.hostname@,
        t <= now <= t + ttl,
        t + ttl <= u64::MAX,
    ensures
        !is_live(put_spec(m, info.hostname@, info, t, ttl), silent, now),
        is_live(put_spec(m, info.hostname@, info, t, ttl), info.hostname@, now),
{
}

/// The outcome of an update request.
#[derive(Debug, Clone, Copy, PartialEq, Eq)]
pub enum UpdateOutcome {
    /// The snapshot was stored.
    Accepted,
    /// The snapshot carried the wrong secret and was dropped.
    WrongPassword,
}

impl UpdateOutcome {
    /// The reply to the agent: `welcome <host>!` or `password wrong!`.
    pub fn reply(&self, hostname: &str) -> (r: String)
        ensures
            r@ == match self {
                UpdateOutcome::Accepted => "welcome "@ + hostname@ + "!"@,
                UpdateOutcome::WrongPassword => "password wrong!"@,
            },
    {
        let mut out: Vec<char> = Vec::new();
        match self {
            UpdateOutcome::Accepted => {
                push_str(&mut out, "welcome ");
                push_str(&mut out, hostname);
                push_str(&mut out, "!");
            },
            UpdateOutcome::WrongPassword => {
                push_str(&mut out, "password wrong!");
            },
        }
        string_of(&out)
    }
}

/// The latest snapshot of each host that reported within the lifetime.
pub struct Registry {
    entries: Vec<RegistryEntry>,
    ttl: u64,
}

impl View for Registry {
    type V = Map<Seq<char>, (ServerInfo, u64)>;

    closed spec fn view(&self) -> Map<Seq<char>, (ServerInfo, u64)> {
        entries_map(self.entries@)
    }
}

proof fn lemma_sorted_unique(s: Seq<RegistryEntry>, i: int, j: int)
    requires
        keys_sorted(s),
        0 <= i < s.len(),
        0 <= j < s.len(),
        s[i].hostname@ == s[j].hostname@,
    ensures
        i == j,
{
    if i < j {
        assert(lex_lt(s[i].hostname@, s[j].hostname@));
        lemma_lex_irreflexive(s[i].hostname@);
    } else if j < i {
        assert(lex_lt(s[j].hostname@, s[i].hostname@));
        lemma_lex_irreflexive(s[i].hostname@);
    }
}

/// Where entry `i` came from, after an entry was put at `p`: in place, or by
/// insertion that moved the later ones up.
spec fn source_index(i: int, p: int, shifted: bool) -> int {
    if shifted && i > p {
        i - 1
    } else {
        i
    }
}

proof fn lemma_map_after(s: Seq<RegistryEntry>, old_s: Seq<RegistryEntry>, p: int, shifted: bool)
    requires
        keys_sorted(s),
        keys_sorted(old_s),
        0 <= p < s.len(),
        forall|k: Seq<char>| #[trigger] has_key(s, k) == (has_key(old_s, k) || k == s[p].hostname@),
        s.len() == old_s.len() + if shifted {
            1int
        } else {
            0int
        },
        forall|i: int|
            0 <= i < s.len() && i != p ==> #[trigger] s[i] == old_s[source_index(i, p, shifted)],
    ensures
        entries_map(s) == entries_map(old_s).insert(s[p].hostname@, (s[p].info, s[p].expires_at)),
{
    let h = s[p].hostname@;
    let m = entries_map(old_s).insert(h, (s[p].info, s[p].expires_at));
    assert forall|k: Seq<char>| #[trigger] entries_map(s).contains_key(k) implies entries_map(s)[k]
        == m[k] by {
        assert(has_key(s, k));
        let i = key_index(s, k);
        if k == h {
            lemma_sorted_unique(s, i, p);
        } else {
            assert(i != p);
            let j = source_index(i, p, shifted);
            assert(s[i] == old_s[j]);
            assert(has_key(old_s, k));
            let j2 = key_index(old_s, k);
            lemma_sorted_unique(old_s, j, j2);
        }
    }
    assert(entries_map(s) =~= m);
}

impl Registry {
    pub closed spec fn wf(&self) -> bool {
        keys_sorted(self.entries@)
    }

    pub closed spec fn ttl_spec(&self) -> u64 {
        self.ttl
    }

    /// An empty registry whose entries live `ttl` seconds.
    pub fn new(ttl: u64) -> (r: Registry)
        ensures
            r.wf(),
            r@ == Map::<Seq<char>, (ServerInfo, u64)>::empty(),
            r.ttl_spec() == ttl,
    {
        let r = Registry { entries: Vec::new(), ttl };
        assert(r@ =~= Map::<Seq<char>, (ServerInfo, u64)>::empty());
        r
    }

    /// The snapshot of `hostname`, if its entry is live at `now`.
    pub fn get(&self, hostname: &str, now: u64) -> (r: Option<&ServerInfo>)
        requires
            self.wf(),
        ensures
            match r {
                Some(x) => get_spec(self@, hostname@, now as int) == Some(*x),
                None => get_spec(self@, hostname@, now as int) is None,
            },
    {
        let key = hostname.to_string();
        let mut i: usize = 0;
        while i < self.entries.len()
            invariant
                i <= self.entries@.len(),
                key@ == hostname@,
                keys_sorted(self.entries@),
                forall|j: int| 0 <= j < i ==> #[trigger] self.entries@[j].hostname@ != hostname@,
            decreases self.entries@.len() - i,
        {
            if self.entries[i].hostname == key {
                proof {
                    assert(has_key(self.entries@, hostname@));
                    lemma_sorted_unique(self.entries@, i as int, key_index(self.entries@, hostname@));
                }
                if now <= self.entries[i].expires_at {
                    return Some(&self.entries[i].info);
                } else {
                    return None;
                }
            }
            i = i + 1;
        }
        None
    }

    /// The live entries at `now`, in increasing hostname order.
    pub fn live_entries(&self, now: u64) -> (r: Vec<&RegistryEntry>)
        requires
            self.wf(),
        ensures
            lists_live(self@, r@, now as int),
    {
        let mut r: Vec<&RegistryEntry> = Vec::new();
        let ghost mut idx: Seq<int> = Seq::empty();
        let ghost s = self.entries@;
        let mut i: usize = 0;
        while i < self.entries.len()
            invariant
                s == self.entries@,
                keys_sorted(s),
                i <= s.len(),
                r@.len() == idx.len(),
                forall|k: int|
                    0 <= k < idx.len() ==> 0 <= #[trigger] idx[k] < i && *r@[k] == s[idx[k]] && now
                        <= s[idx[k]].expires_at,
                forall|k1: int, k2: int| 0 <= k1 < k2 < idx.len() ==> #[trigger] idx[k1] < #[trigger] idx[k2],
                forall|j: int|
                    0 <= j < i && now <= #[trigger] s[j].expires_at ==> exists|k: int|
                        0 <= k < idx.len() && idx[k] == j,
            decreases s.len() - i,
        {
            if now <= self.entries[i].expires_at {
                r.push(&self.entries[i]);
                proof {
                    let old_idx = idx;
                    idx = idx.push(i as int);
                    assert(idx[idx.len() - 1] == i);
                    assert forall|j: int|
                        0 <= j < i + 1 && now <= #[trigger] s[j].expires_at implies exists|k: int|
                        0 <= k < idx.len() && idx[k] == j by {
                        if j < i {
                            let k = choose|k: int| 0 <= k < old_idx.len() && old_idx[k] == j;
                            assert(idx[k] == j);
                        } else {
                            assert(idx[idx.len() - 1] == j);
                        }
                    }
                }
            }
            i = i + 1;
        }
        proof {
            let m = self@;
            assert forall|k: int| 0 <= k < r@.len() implies is_live(m, #[trigger] r@[k].hostname@, now as int)
                && m[r@[k].hostname@] == (r@[k].info, r@[k].expires_at) by {
                let h = r@[k].hostname@;
                assert(s[idx[k]].hostname@ == h);
                assert(has_key(s, h));
                lemma_sorted_unique(s, idx[k], key_index(s, h));
            }
            assert forall|h: Seq<char>| #[trigger] is_live(m, h, now as int) implies exists|k: int|
                0 <= k < r@.len() && r@[k].hostname@ == h by {
                let j = key_index(s, h);
                assert(now <= s[j].expires_at);
                let k = choose|k: int| 0 <= k < idx.len() && idx[k] == j;
                assert(r@[k].hostname@ == h);
            }
            assert forall|a: int, b: int| 0 <= a < b < r@.len() implies lex_lt(
                #[trigger] r@[a].hostname@,
                #[trigger] r@[b].hostname@,
            ) by {
                assert(idx[a] < idx[b]);
                assert(lex_lt(s[idx[a]].hostname@, s[idx[b]].hostname@));
            }
        }
        r
    }

    /// Stores `info` at `now` if it carries `password`, with the receipt time
    /// `server_time` recorded in it; else leaves the registry as it was.
    pub fn update(&mut self, info: ServerInfo, password: &str, now: u64, server_time: &str) -> (r:
        UpdateOutcome)
        requires
            old(self).wf(),
        ensures
            final(self).wf(),
            final(self).ttl_spec() == old(self).ttl_spec(),
            (r == UpdateOutcome::Accepted) == (info.password@ == password@),
            r == UpdateOutcome::WrongPassword ==> final(self)@ == old(self)@,
            r == UpdateOutcome::Accepted ==> final(self)@.contains_key(info.hostname@)
                && stamped_from(final(self)@[info.hostname@].0, info, server_time@) && final(self)@
                == put_spec(
                old(self)@,
                info.hostname@,
                final(self)@[info.hostname@].0,
                now,
                old(self).ttl_spec(),
            ),
    {
        let expected = password.to_string();
        if info.password != expected {
            return UpdateOutcome::WrongPassword;
        }
        let ghost before = info;
        let mut info = info;
        info.stamp(server_time);
        assert(stamped_from(info, before, server_time@));
        self.put(info, now);
        UpdateOutcome::Accepted
    }

    /// Deletes the entries that have expired at `now`.
    fn prune_expired(&mut self, now: u64)
        requires
            old(self).wf(),
        ensures
            final(self).wf(),
            final(self).ttl_spec() == old(self).ttl_spec(),
            final(self)@ == prune(old(self)@, now as int),
    {
        let ghost old_s = self.entries@;
        let mut rest: Vec<RegistryEntry> = Vec::new();
        core::mem::swap(&mut self.entries, &mut rest);
        assert(old_s.subrange(0, old_s.len() as int) =~= old_s);
        let ghost mut idx: Seq<int> = Seq::empty();
        while rest.len() > 0
            invariant
                keys_sorted(old_s),
                self.ttl == old(self).ttl,
                rest@.len() <= old_s.len(),
                rest@ == old_s.subrange(0, rest@.len() as int),
                self.entries@.len() == idx.len(),
                forall|k: int|
                    0 <= k < idx.len() ==> rest@.len() <= #[trigger] idx[k] < old_s.len()
                        && self.entries@[k] == old_s[idx[k]] && now <= old_s[idx[k]].expires_at,
                forall|k1: int, k2: int|
                    0 <= k1 < k2 < idx.len() ==> #[trigger] idx[k1] < #[trigger] idx[k2],
                forall|j: int|
                    rest@.len() <= j < old_s.len() && now <= #[trigger] old_s[j].expires_at
                        ==> exists|k: int| 0 <= k < idx.len() && idx[k] == j,
            decreases rest@.len(),
        {
            let ghost n = rest@.len() as int;
            let e = rest.pop().unwrap();
            assert(e == old_s[n - 1]);
            assert(rest@ =~= old_s.subrange(0, n - 1));
            if now <= e.expires_at {
                self.entries.insert(0, e);
                proof {
                    let old_idx = idx;
                    idx = seq![n - 1].add(idx);
                    assert forall|k: int| 0 <= k < idx.len() implies rest@.len() <= #[trigger] idx[k]
                        < old_s.len() && self.entries@[k] == old_s[idx[k]] && now
                        <= old_s[idx[k]].expires_at by {
                        if k > 0 {
                            assert(idx[k] == old_idx[k - 1]);
                        }
                    }
                    assert forall|k1: int, k2: int| 0 <= k1 < k2 < idx.len() implies #[trigger] idx[k1]
                        < #[trigger] idx[k2] by {
                        if k1 > 0 {
                            assert(idx[k1] == old_idx[k1 - 1]);
                        }
                        assert(idx[k2] == old_idx[k2 - 1]);
                    }
                    assert forall|j: int|
                        rest@.len() <= j < old_s.len() && now <= #[trigger] old_s[j].expires_at
                            implies exists|k: int| 0 <= k < idx.len() && idx[k] == j by {
                        if j == n - 1 {
                            assert(idx[0] == j);
                        } else {
                            let k = choose|k: int| 0 <= k < old_idx.len() && old_idx[k] == j;
                            assert(idx[k + 1] == j);
                        }
                    }
                }
            }
        }
        proof {
            let s = self.entries@;
            assert forall|a: int, b: int| 0 <= a < b < s.len() implies lex_lt(
                #[trigger] s[a].hostname@,
                #[trigger] s[b].hostname@,
            ) by {
                assert(idx[a] < idx[b]);
                assert(lex_lt(old_s[idx[a]].hostname@, old_s[idx[b]].hostname@));
            }
            let m = entries_map(old_s);
            let pm = prune(m, now as int);
            assert forall|h: Seq<char>| #[trigger] has_key(s, h) == pm.contains_key(h) by {
                if has_key(s, h) {
                    let k = choose|k: int| 0 <= k < s.len() && s[k].hostname@ == h;
                    assert(old_s[idx[k]].hostname@ == h);
                    assert(has_key(old_s, h));
                    lemma_sorted_unique(old_s, idx[k], key_index(old_s, h));
                }
                if pm.contains_key(h) {
                    let j = key_index(old_s, h);
                    let k = choose|k: int| 0 <= k < idx.len() && idx[k] == j;
                    assert(s[k].hostname@ == h);
                }
            }
            assert forall|h: Seq<char>| #[trigger] entries_map(s).contains_key(h) implies entries_map(
                s,
            )[h] == pm[h] by {
                let k = key_index(s, h);
                assert(old_s[idx[k]].hostname@ == h);
                assert(has_key(old_s, h));
                lemma_sorted_unique(old_s, idx[k], key_index(old_s, h));
            }
            assert(entries_map(s) =~= pm);
        }
    }

    /// Deletes the entries expired at `now`, then writes `info` under its
    /// hostname, replacing what was there and restarting the entry's lifetime.
    pub fn put(&mut self, info: ServerInfo, now: u64)
        requires
            old(self).wf(),
        ensures
            final(self).wf(),
            final(self).ttl_spec() == old(self).ttl_spec(),
            final(self)@ == put_spec(old(self)@, info.hostname@, info, now, old(self).ttl_spec()),
    {
        let ghost before = self@;
        self.prune_expired(now);
        let key = chars_of(info.hostname.as_str());
        let expires_at = now.saturating_add(self.ttl);
        let ghost h = info.hostname@;
        let ghost old_s = self.entries@;
        let mut p: usize = 0;
        while p < self.entries.len() && lex_less(
            &chars_of(self.entries[p].hostname.as_str()),
            &key,
        )
            invariant
                p <= self.entries@.len(),
                self.entries@ == old_s,
                key@ == h,
                keys_sorted(old_s),
                forall|i: int| 0 <= i < p ==> lex_lt(#[trigger] old_s[i].hostname@, h),
            decreases self.entries@.len() - p,
        {
            p = p + 1;
        }
        let entry = RegistryEntry { hostname: info.hostname.clone(), info, expires_at };
        assert(entry.hostname@ == h);
        if p < self.entries.len() && self.entries[p].hostname == entry.hostname {
            self.entries.remove(p);
            self.entries.insert(p, entry);
            proof {
                let s = self.entries@;
                assert(s =~= old_s.update(p as int, entry));
                assert forall|i: int, j: int| 0 <= i < j < s.len() implies lex_lt(
                    #[trigger] s[i].hostname@,
                    #[trigger] s[j].hostname@,
                ) by {
                    assert(lex_lt(old_s[i].hostname@, old_s[j].hostname@));
                }
                assert forall|k: Seq<char>| #[trigger] has_key(s, k) == (has_key(old_s, k) || k == h) by {
                    if has_key(s, k) {
                        let i = choose|i: int| 0 <= i < s.len() && s[i].hostname@ == k;
                        if i != p {
                            assert(old_s[i].hostname@ == k);
                        }
                    }
                    if has_key(old_s, k) {
                        let j = choose|j: int| 0 <= j < old_s.len() && old_s[j].hostname@ == k;
                        if j != p {
                            assert(s[j].hostname@ == k);
                        } else {
                            assert(s[p as int].hostname@ == k);
                        }
                    }
                    if k == h {
                        assert(s[p as int].hostname@ == k);
                    }
                }
                lemma_map_after(s, old_s, p as int, false);
            }
        } else {
            proof {
                if p < old_s.len() {
                    lemma_lex_total(old_s[p as int].hostname@, h);
                }
            }
            self.entries.insert(p, entry);
            proof {
                let s = self.entries@;
                assert(s =~= old_s.insert(p as int, entry));
                assert forall|i: int, j: int| 0 <= i < j < s.len() implies lex_lt(
                    #[trigger] s[i].hostname@,
                    #[trigger] s[j].hostname@,
                ) by {
                    if j < p {
                        assert(lex_lt(old_s[i].hostname@, old_s[j].hostname@));
                    } else if j == p {
                    } else if i < p {
                        assert(lex_lt(old_s[i].hostname@, h));
                        assert(lex_lt(h, old_s[p as int].hostname@));
                        if j - 1 > p {
                            assert(lex_lt(old_s[p as int].hostname@, old_s[j - 1].hostname@));
                            lemma_lex_transitive(h, old_s[p as int].hostname@, old_s[j - 1].hostname@);
                        }
                        lemma_lex_transitive(old_s[i].hostname@, h, old_s[j - 1].hostname@);
                    } else if i == p {
                        assert(lex_lt(h, old_s[p as int].hostname@));
                        if j - 1 > p {
                            assert(lex_lt(old_s[p as int].hostname@, old_s[j - 1].hostname@));
                            lemma_lex_transitive(h, old_s[p as int].hostname@, old_s[j - 1].hostname@);
                        }
                    } else {
                        assert(lex_lt(old_s[i - 1].hostname@, old_s[j - 1].hostname@));
                    }
                }
                assert forall|k: Seq<char>| #[trigger] has_key(s, k) == (has_key(old_s, k) || k == h) by {
                    if has_key(s, k) {
                        let i = choose|i: int| 0 <= i < s.len() && s[i].hostname@ == k;
                        if i < p {
                            assert(old_s[i].hostname@ == k);
                        } else if i > p {
                            assert(old_s[i - 1].hostname@ == k);
                        }
                    }
                    if has_key(old_s, k) {
                        let j = choose|j: int| 0 <= j < old_s.len() && old_s[j].hostname@ == k;
                        if j < p {
                            assert(s[j].hostname@ == k);
                        } else {
                            assert(s[j + 1].hostname@ == k);
                        }
                    }
                    if k == h {
                        assert(s[p as int].hostname@ == k);
                    }
                }
                lemma_map_after(s, old_s, p as int, true);
            }
        }
    }
}

} // verus!
