//! The dashboard: GPU user descriptors normalized for display, and one row of
//! text cells per live host.
use vstd::prelude::*;
use crate::gpu::SingleCardDetail;
use crate::host::{decimal, push_chars, push_decimal, push_str};
use crate::keyed::{by_key, chars_pairs_view, insert_by_key_exec, pairs_view};
use crate::registry::RegistryEntry;
use crate::snapshot::{find_key, lookup, ServerInfo};
use crate::text::{chars_of, contains, contains_exec, occurs_at, occurs_at_exec, split, split_exec, string_of, trim, trim_exec};

verus! {

/// The non-empty parts, in order.
pub open spec fn nonempty_parts(p: Seq<Seq<char>>) -> Seq<Seq<char>>
    decreases p.len(),
{
    if p.len() == 0 {
        Seq::empty()
    } else if p.last().len() > 0 {
        nonempty_parts(p.drop_last()).push(p.last())
    } else {
        nonempty_parts(p.drop_last())
    }
}

/// The components of a path: its non-empty parts between separators.
pub open spec fn path_components(s: Seq<char>) -> Seq<Seq<char>> {
    nonempty_parts(split(s, '/'))
}

/// A character's code with ASCII capitals folded to small letters.
pub open spec fn fold_code(c: char) -> u32 {
    if 'A' <= c && c <= 'Z' {
        (c as u32 + 32) as u32
    } else {
        c as u32
    }
}

/// Equal up to the case of ASCII letters.
pub open spec fn eq_ignore_case(a: Seq<char>, b: Seq<char>) -> bool {
    a.len() == b.len() && forall|i: int| 0 <= i < a.len() ==> fold_code(a[i]) == fold_code(b[i])
}

/// A stored GPU user descriptor as the dashboard shows it: for a path, its
/// third component when it has more than two, else its last; `null` for the
/// no-process descriptor in any case; anything else as it is.
pub open spec fn normalize_user(u: Seq<char>) -> Seq<char> {
    if contains(u, seq!['/']) {
        let c = path_components(u);
        if c.len() > 2 {
            c[2]
        } else if c.len() > 0 {
            c.last()
        } else {
            Seq::empty()
        }
    } else if eq_ignore_case(u, "no running processes found"@) {
        "null"@
    } else {
        u
    }
}

fn fold_code_exec(c: char) -> (r: u32)
    ensures
        r == fold_code(c),
{
    if 'A' <= c && c <= 'Z' {
        c as u32 + 32
    } else {
        c as u32
    }
}

fn eq_ignore_case_exec(a: &Vec<char>, b: &Vec<char>) -> (r: bool)
    ensures
        r == eq_ignore_case(a@, b@),
{
    if a.len() != b.len() {
        return false;
    }
    let mut i: usize = 0;
    while i < a.len()
        invariant
            a@.len() == b@.len(),
            i <= a@.len(),
            forall|j: int| 0 <= j < i ==> fold_code(a@[j]) == fold_code(b@[j]),
        decreases a@.len() - i,
    {
        if fold_code_exec(a[i]) != fold_code_exec(b[i]) {
            return false;
        }
        i = i + 1;
    }
    true
}

/// One stored GPU user descriptor, normalized for display.
pub fn normalize_gpu_user(user: &str) -> (r: String)
    ensures
        r@ == normalize_user(user@),
{
    let u = chars_of(user);
    let sep = vec!['/'];
    assert(sep@ =~= seq!['/']);
    if contains_exec(&u, &sep) {
        let parts = split_exec(&u, '/');
        let ghost pv = split(u@, '/');
        let mut comps: Vec<Vec<char>> = Vec::new();
        let ghost mut cv: Seq<Seq<char>> = Seq::empty();
        let mut k: usize = 0;
        while k < parts.len()
            invariant
                k <= parts@.len() == pv.len(),
                forall|j: int| 0 <= j < parts@.len() ==> #[trigger] parts@[j]@ == pv[j],
                comps@.len() == cv.len(),
                forall|j: int| 0 <= j < comps@.len() ==> #[trigger] comps@[j]@ == cv[j],
                cv == nonempty_parts(pv.subrange(0, k as int)),
            decreases parts@.len() - k,
        {
            proof {
                assert(pv.subrange(0, k + 1).drop_last() =~= pv.subrange(0, k as int));
            }
            if parts[k].len() > 0 {
                let piece = crate::text::slice(&parts[k], 0, parts[k].len());
                assert(piece@ =~= parts@[k as int]@);
                comps.push(piece);
                proof {
                    cv = cv.push(pv[k as int]);
                }
            }
            k = k + 1;
        }
        assert(pv.subrange(0, k as int) =~= pv);
        if comps.len() > 2 {
            string_of(&comps[2])
        } else if comps.len() > 0 {
            string_of(&comps[comps.len() - 1])
        } else {
            String::new()
        }
    } else {
        let phrase = chars_of("no running processes found");
        if eq_ignore_case_exec(&u, &phrase) {
            "null".to_string()
        } else {
            user.to_string()
        }
    }
}

/// Each stored GPU user descriptor normalized for display, in order.
pub fn normalize_gpu_users(users: &Vec<String>) -> (r: Vec<String>)
    ensures
        r@.len() == users@.len(),
        forall|i: int| 0 <= i < users@.len() ==> #[trigger] r@[i]@ == normalize_user(users@[i]@),
{
    let mut r: Vec<String> = Vec::new();
    let mut k: usize = 0;
    while k < users.len()
        invariant
            k <= users@.len(),
            r@.len() == k,
            forall|i: int| 0 <= i < k ==> #[trigger] r@[i]@ == normalize_user(users@[i]@),
        decreases users@.len() - k,
    {
        r.push(normalize_gpu_user(users[k].as_str()));
        k = k + 1;
    }
    r
}

/// A loopback address: IPv4 `127.x.y.z` or IPv6 `::1`.
pub open spec fn is_loopback(ip: Seq<char>) -> bool {
    occurs_at(ip, "127."@, 0) || ip == "::1"@
}

fn is_loopback_exec(ip: &Vec<char>) -> (r: bool)
    ensures
        r == is_loopback(ip@),
{
    let v4 = chars_of("127.");
    let v6 = chars_of("::1");
    proof {
        reveal_strlit("::1");
        if ip@ == "::1"@ {
            assert(ip@.subrange(0, 3) =~= ip@);
        }
    }
    if occurs_at_exec(ip, &v4, 0) {
        return true;
    }
    if ip.len() == 3 && occurs_at_exec(ip, &v6, 0) {
        assert(ip@.subrange(0, 3) =~= ip@);
        return true;
    }
    false
}

/// The address lines of a host, in the order given: `iface: addr` for each
/// interface whose address is neither `null` nor a loopback address.
pub open spec fn addr_lines(net: Seq<(Seq<char>, Seq<char>)>) -> Seq<char>
    decreases net.len(),
{
    if net.len() == 0 {
        Seq::empty()
    } else {
        let prev = addr_lines(net.drop_last());
        let (n, ip) = net.last();
        if !contains(ip, "null"@) && !is_loopback(ip) {
            prev + n + ": "@ + ip + seq!['\n']
        } else {
            prev
        }
    }
}

/// `name (driver)` per card, one per line.
pub open spec fn device_lines(cards: Seq<SingleCardDetail>) -> Seq<char>
    decreases cards.len(),
{
    if cards.len() == 0 {
        Seq::empty()
    } else {
        let c = cards.last();
        device_lines(cards.drop_last()) + c.name@ + " ("@ + c.driver_version@ + ")"@ + seq!['\n']
    }
}

/// The GPU utilization per card, one per line.
pub open spec fn util_lines(cards: Seq<SingleCardDetail>) -> Seq<char>
    decreases cards.len(),
{
    if cards.len() == 0 {
        Seq::empty()
    } else {
        util_lines(cards.drop_last()) + cards.last().utilization_gpu@ + seq!['\n']
    }
}

/// `used/total` memory per card, one per line.
pub open spec fn memory_lines(cards: Seq<SingleCardDetail>) -> Seq<char>
    decreases cards.len(),
{
    if cards.len() == 0 {
        Seq::empty()
    } else {
        let c = cards.last();
        memory_lines(cards.drop_last()) + c.memory_used@ + "/"@ + c.memory_total@ + seq!['\n']
    }
}

/// `T C` per card, one per line.
pub open spec fn temp_lines(cards: Seq<SingleCardDetail>) -> Seq<char>
    decreases cards.len(),
{
    if cards.len() == 0 {
        Seq::empty()
    } else {
        temp_lines(cards.drop_last()) + cards.last().temperature_gpu@ + " C"@ + seq!['\n']
    }
}

/// The normalized GPU users, one per line.
pub open spec fn user_lines(users: Seq<String>) -> Seq<char>
    decreases users.len(),
{
    if users.len() == 0 {
        Seq::empty()
    } else {
        user_lines(users.drop_last()) + normalize_user(users.last()@) + seq!['\n']
    }
}

/// Millionths rounded to whole hundredths, halves to even: a load fraction as a
/// percentage.
pub open spec fn percent_of(v: u64) -> nat {
    (v / 10000 + if v % 10000 > 5000 || (v % 10000 == 5000 && (v / 10000) % 2 == 1) {
        1int
    } else {
        0int
    }) as nat
}

/// Millionths rounded to whole units, halves to even.
pub open spec fn whole_of(v: u64) -> nat {
    (v / 1000000 + if v % 1000000 > 500000 || (v % 1000000 == 500000 && (v / 1000000) % 2 == 1) {
        1int
    } else {
        0int
    }) as nat
}

/// A CPU load cell: the rounded percentage and ` %`, or `0` where the host
/// sent no such reading.
pub open spec fn load_cell(cpu: Seq<(String, u64)>, key: Seq<char>) -> Seq<char> {
    match lookup(cpu, key) {
        Some(v) => decimal(percent_of(v)) + " %"@,
        None => "0"@,
    }
}

/// The CPU temperature cell: whole degrees and ` C`, `0 C` without a reading.
pub open spec fn temp_cell(cpu: Seq<(String, u64)>) -> Seq<char> {
    match lookup(cpu, "temp"@) {
        Some(v) => decimal(whole_of(v)) + " C"@,
        None => "0 C"@,
    }
}

/// The heartbeat cell: the receipt time that the aggregator stamped, or the
/// time of rendering.
pub open spec fn heartbeat_cell(other: Seq<(String, String)>, now_text: Seq<char>) -> Seq<char> {
    match lookup(other, "new_nowtime"@) {
        Some(t) => t@,
        None => now_text,
    }
}

/// The eleven cells of a host's row. The address cell lists the interfaces
/// in increasing name order, each once, with the last address given for it.
pub open spec fn row_spec(hostname: Seq<char>, info: ServerInfo, now_text: Seq<char>) -> Seq<
    Seq<char>,
> {
    seq![
        hostname,
        trim(addr_lines(by_key(pairs_view(info.net@)))),
        load_cell(info.cpu@, "system"@),
        load_cell(info.cpu@, "user"@),
        temp_cell(info.cpu@),
        trim(device_lines(info.gpu.details@)),
        trim(util_lines(info.gpu.details@)),
        trim(memory_lines(info.gpu.details@)),
        trim(temp_lines(info.gpu.details@)),
        trim(user_lines(info.gpu.users@)),
        heartbeat_cell(info.other@, now_text),
    ]
}

/// One host's row of the dashboard.
pub struct DashboardRow {
    pub hostname: String,
    pub addr: String,
    pub cpu_system: String,
    pub cpu_user: String,
    pub cpu_temp: String,
    pub gpu_device: String,
    pub gpu_util: String,
    pub gpu_memory: String,
    pub gpu_temp: String,
    pub gpu_user: String,
    pub heartbeat: String,
}

impl View for DashboardRow {
    type V = Seq<Seq<char>>;

    open spec fn view(&self) -> Seq<Seq<char>> {
        seq![
            self.hostname@,
            self.addr@,
            self.cpu_system@,
            self.cpu_user@,
            self.cpu_temp@,
            self.gpu_device@,
            self.gpu_util@,
            self.gpu_memory@,
            self.gpu_temp@,
            self.gpu_user@,
            self.heartbeat@,
        ]
    }
}

fn addr_cell(net: &Vec<(String, String)>) -> (r: String)
    ensures
        r@ == trim(addr_lines(by_key(pairs_view(net@)))),
{
    let ghost pv = pairs_view(net@);
    let mut sorted: Vec<(Vec<char>, Vec<char>)> = Vec::new();
    let mut k: usize = 0;
    while k < net.len()
        invariant
            k <= net@.len(),
            pv == pairs_view(net@),
            chars_pairs_view(sorted@) == by_key(pv.subrange(0, k as int)),
        decreases net@.len() - k,
    {
        proof {
            assert(pv.subrange(0, k + 1).drop_last() =~= pv.subrange(0, k as int));
            assert(pv.subrange(0, k + 1).last() == pv[k as int]);
        }
        insert_by_key_exec(&mut sorted, chars_of(net[k].0.as_str()), chars_of(net[k].1.as_str()));
        k = k + 1;
    }
    assert(pv.subrange(0, k as int) =~= pv);
    let ghost sv = chars_pairs_view(sorted@);
    let null = chars_of("null");
    let mut out: Vec<char> = Vec::new();
    let mut j: usize = 0;
    while j < sorted.len()
        invariant
            j <= sorted@.len(),
            sv == chars_pairs_view(sorted@),
            null@ == "null"@,
            out@ == addr_lines(sv.subrange(0, j as int)),
        decreases sorted@.len() - j,
    {
        proof {
            assert(sv.subrange(0, j + 1).drop_last() =~= sv.subrange(0, j as int));
            assert(sv.subrange(0, j + 1).last() == sv[j as int]);
        }
        if !contains_exec(&sorted[j].1, &null) && !is_loopback_exec(&sorted[j].1) {
            push_chars(&mut out, &sorted[j].0);
            push_str(&mut out, ": ");
            push_chars(&mut out, &sorted[j].1);
            out.push('\n');
        }
        j = j + 1;
    }
    assert(sv.subrange(0, j as int) =~= sv);
    string_of(&trim_exec(&out))
}

fn device_cell(cards: &Vec<SingleCardDetail>) -> (r: String)
    ensures
        r@ == trim(device_lines(cards@)),
{
    let mut out: Vec<char> = Vec::new();
    let mut k: usize = 0;
    while k < cards.len()
        invariant
            k <= cards@.len(),
            out@ == device_lines(cards@.subrange(0, k as int)),
        decreases cards@.len() - k,
    {
        proof {
            assert(cards@.subrange(0, k + 1).drop_last() =~= cards@.subrange(0, k as int));
        }
        push_str(&mut out, cards[k].name.as_str());
        push_str(&mut out, " (");
        push_str(&mut out, cards[k].driver_version.as_str());
        push_str(&mut out, ")");
        out.push('\n');
        k = k + 1;
    }
    assert(cards@.subrange(0, k as int) =~= cards@);
    string_of(&trim_exec(&out))
}

fn util_cell(cards: &Vec<SingleCardDetail>) -> (r: String)
    ensures
        r@ == trim(util_lines(cards@)),
{
    let mut out: Vec<char> = Vec::new();
    let mut k: usize = 0;
    while k < cards.len()
        invariant
            k <= cards@.len(),
            out@ == util_lines(cards@.subrange(0, k as int)),
        decreases cards@.len() - k,
    {
        proof {
            assert(cards@.subrange(0, k + 1).drop_last() =~= cards@.subrange(0, k as int));
        }
        push_str(&mut out, cards[k].utilization_gpu.as_str());
        out.push('\n');
        k = k + 1;
    }
    assert(cards@.subrange(0, k as int) =~= cards@);
    string_of(&trim_exec(&out))
}

fn memory_cell(cards: &Vec<SingleCardDetail>) -> (r: String)
    ensures
        r@ == trim(memory_lines(cards@)),
{
    let mut out: Vec<char> = Vec::new();
    let mut k: usize = 0;
    while k < cards.len()
        invariant
            k <= cards@.len(),
            out@ == memory_lines(cards@.subrange(0, k as int)),
        decreases cards@.len() - k,
    {
        proof {
            assert(cards@.subrange(0, k + 1).drop_last() =~= cards@.subrange(0, k as int));
        }
        push_str(&mut out, cards[k].memory_used.as_str());
        push_str(&mut out, "/");
        push_str(&mut out, cards[k].memory_total.as_str());
        out.push('\n');
        k = k + 1;
    }
    assert(cards@.subrange(0, k as int) =~= cards@);
    string_of(&trim_exec(&out))
}

fn temp_cell_exec(cards: &Vec<SingleCardDetail>) -> (r: String)
    ensures
        r@ == trim(temp_lines(cards@)),
{
    let mut out: Vec<char> = Vec::new();
    let mut k: usize = 0;
    while k < cards.len()
        invariant
            k <= cards@.len(),
            out@ == temp_lines(cards@.subrange(0, k as int)),
        decreases cards@.len() - k,
    {
        proof {
            assert(cards@.subrange(0, k + 1).drop_last() =~= cards@.subrange(0, k as int));
        }
        push_str(&mut out, cards[k].temperature_gpu.as_str());
        push_str(&mut out, " C");
        out.push('\n');
        k = k + 1;
    }
    assert(cards@.subrange(0, k as int) =~= cards@);
    string_of(&trim_exec(&out))
}

fn user_cell(users: &Vec<String>) -> (r: String)
    ensures
        r@ == trim(user_lines(users@)),
{
    let mut out: Vec<char> = Vec::new();
    let mut k: usize = 0;
    while k < users.len()
        invariant
            k <= users@.len(),
            out@ == user_lines(users@.subrange(0, k as int)),
        decreases users@.len() - k,
    {
        proof {
            assert(users@.subrange(0, k + 1).drop_last() =~= users@.subrange(0, k as int));
        }
        let u = normalize_gpu_user(users[k].as_str());
        push_str(&mut out, u.as_str());
        out.push('\n');
        k = k + 1;
    }
    assert(users@.subrange(0, k as int) =~= users@);
    string_of(&trim_exec(&out))
}

fn load_cell_exec(cpu: &Vec<(String, u64)>, key: &str) -> (r: String)
    ensures
        r@ == load_cell(cpu@, key@),
{
    match find_key(cpu, key) {
        Some(i) => {
            let v = cpu[i].1;
            let pct = v / 10000 + if v % 10000 > 5000 || (v % 10000 == 5000 && (v / 10000) % 2 == 1) {
                1
            } else {
                0
            };
            let mut out: Vec<char> = Vec::new();
            push_decimal(&mut out, pct);
            push_str(&mut out, " %");
            assert(out@ =~= decimal(percent_of(v)) + " %"@);
            string_of(&out)
        },
        None => "0".to_string(),
    }
}

fn temp_cell_of(cpu: &Vec<(String, u64)>) -> (r: String)
    ensures
        r@ == temp_cell(cpu@),
{
    match find_key(cpu, "temp") {
        Some(i) => {
            let v = cpu[i].1;
            let deg = v / 1000000 + if v % 1000000 > 500000 || (v % 1000000 == 500000 && (v / 1000000)
                % 2 == 1) {
                1
            } else {
                0
            };
            let mut out: Vec<char> = Vec::new();
            push_decimal(&mut out, deg);
            push_str(&mut out, " C");
            assert(out@ =~= decimal(whole_of(v)) + " C"@);
            string_of(&out)
        },
        None => "0 C".to_string(),
    }
}

/// The row of host `hostname` with snapshot `info`; `now_text` stands in for
/// a heartbeat that the snapshot lacks.
pub fn dashboard_row(hostname: &str, info: &ServerInfo, now_text: &str) -> (r: DashboardRow)
    ensures
        r@ == row_spec(hostname@, *info, now_text@),
{
    let heartbeat = match find_key(&info.other, "new_nowtime") {
        Some(i) => info.other[i].1.clone(),
        None => now_text.to_string(),
    };
    let r = DashboardRow {
        hostname: hostname.to_string(),
        addr: addr_cell(&info.net),
        cpu_system: load_cell_exec(&info.cpu, "system"),
        cpu_user: load_cell_exec(&info.cpu, "user"),
        cpu_temp: temp_cell_of(&info.cpu),
        gpu_device: device_cell(&info.gpu.details),
        gpu_util: util_cell(&info.gpu.details),
        gpu_memory: memory_cell(&info.gpu.details),
        gpu_temp: temp_cell_exec(&info.gpu.details),
        gpu_user: user_cell(&info.gpu.users),
        heartbeat,
    };
    assert(r@ =~= row_spec(hostname@, *info, now_text@));
    r
}

/// The rows of the listed entries, in order, leaving out any whose hostname
/// is empty.
pub open spec fn rows_spec(entries: Seq<&RegistryEntry>, now_text: Seq<char>) -> Seq<Seq<Seq<char>>>
    decreases entries.len(),
{
    if entries.len() == 0 {
        Seq::empty()
    } else {
        let prev = rows_spec(entries.drop_last(), now_text);
        let e = entries.last();
        if e.hostname@.len() > 0 {
            prev.push(row_spec(e.hostname@, e.info, now_text))
        } else {
            prev
        }
    }
}

/// The dashboard rows of the listed entries.
pub fn database_process(entries: &Vec<&RegistryEntry>, now_text: &str) -> (r: Vec<DashboardRow>)
    ensures
        r@.len() == rows_spec(entries@, now_text@).len(),
        forall|i: int| 0 <= i < r@.len() ==> #[trigger] r@[i]@ == rows_spec(entries@, now_text@)[i],
{
    let mut r: Vec<DashboardRow> = Vec::new();
    let mut k: usize = 0;
    while k < entries.len()
        invariant
            k <= entries@.len(),
            r@.len() == rows_spec(entries@.subrange(0, k as int), now_text@).len(),
            forall|i: int| 0 <= i < r@.len() ==> #[trigger] r@[i]@ == rows_spec(entries@.subrange(0, k as int), now_text@)[i],
        decreases entries@.len() - k,
    {
        proof {
            assert(entries@.subrange(0, k + 1).drop_last() =~= entries@.subrange(0, k as int));
        }
        let e = entries[k];
        if !e.hostname.as_str().is_empty() {
            let row = dashboard_row(e.hostname.as_str(), &e.info, now_text);
            r.push(row);
        }
        k = k + 1;
    }
    assert(entries@.subrange(0, k as int) =~= entries@);
    r
}

} // verus!
