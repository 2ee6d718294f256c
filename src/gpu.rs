//! Parsing of the GPU tool's two outputs: the process-accounting dump, which
//! names the processes that hold a card, and the per-device CSV query.
use vstd::prelude::*;
use crate::text::{
    after_last, after_last_exec, before_first, before_first_exec, chars_of, contains,
    contains_exec, split, split_exec, split_scan, string_of, trim, trim_exec,
};

verus! {

/// The banner that opens the process table.
pub open spec fn banner() -> Seq<char> {
    "=====|"@
}

pub open spec fn no_process_phrase() -> Seq<char> {
    "No running processes found"@
}

pub open spec fn driver_marker() -> Seq<char> {
    "Driver Version:"@
}

pub open spec fn cuda_marker() -> Seq<char> {
    "CUDA Version:"@
}

/// A dump in which the driver stack answered.
pub open spec fn has_markers(s: Seq<char>) -> bool {
    contains(s, driver_marker()) && contains(s, cuda_marker())
}

/// The rows of the process table: what follows the last banner, up to the
/// first `+` rule.
pub open spec fn process_rows(s: Seq<char>) -> Seq<char> {
    before_first(after_last(s, banner()), seq!['+'])
}

/// The process ID in a process row: what follows the last `N/A` and precedes
/// the first `C`, trimmed.
pub open spec fn pid_of(col: Seq<char>) -> Seq<char> {
    trim(before_first(after_last(col, "N/A"@), seq!['C']))
}

/// What one process slot of the table holds.
pub ghost enum SlotSpec {
    NoProcess,
    Process(Seq<char>),
}

/// The slots of the trimmed, non-empty columns, in order.
pub open spec fn slots_of(cols: Seq<Seq<char>>) -> Seq<SlotSpec>
    decreases cols.len(),
{
    if cols.len() == 0 {
        Seq::empty()
    } else {
        let prev = slots_of(cols.drop_last());
        let c = trim(cols.last());
        if c.len() == 0 {
            prev
        } else if contains(c, no_process_phrase()) {
            prev.push(SlotSpec::NoProcess)
        } else {
            prev.push(SlotSpec::Process(pid_of(c)))
        }
    }
}

/// The slots that the accounting dump `s` lists.
pub open spec fn users_of_dump(s: Seq<char>) -> Seq<SlotSpec> {
    slots_of(split(process_rows(s), '|'))
}

/// One process slot of the accounting dump.
pub enum ProcessSlot {
    /// The table says that no process holds a card.
    NoProcess,
    /// A process, by the ID that the table gives it.
    Process { pid: String },
}

impl View for ProcessSlot {
    type V = SlotSpec;

    open spec fn view(&self) -> SlotSpec {
        match self {
            ProcessSlot::NoProcess => SlotSpec::NoProcess,
            ProcessSlot::Process { pid } => SlotSpec::Process(pid@),
        }
    }
}

/// Why the accounting dump could not be read.
#[derive(Debug, Clone, Copy, PartialEq, Eq)]
pub enum ParseError {
    /// The dump lacks the driver and CUDA version lines: the driver stack is down.
    DriverUnavailable,
}

pub open spec fn slots_match(v: Seq<ProcessSlot>, w: Seq<SlotSpec>) -> bool {
    v.len() == w.len() && forall|i: int| 0 <= i < v.len() ==> #[trigger] v[i]@ == w[i]
}

fn classify_column(col: &Vec<char>, phrase: &Vec<char>) -> (r: Option<ProcessSlot>)
    requires
        phrase@ == no_process_phrase(),
    ensures
        match r {
            None => trim(col@).len() == 0,
            Some(slot) => trim(col@).len() != 0 && (if contains(trim(col@), no_process_phrase()) {
                slot@ == SlotSpec::NoProcess
            } else {
                slot@ == SlotSpec::Process(pid_of(trim(col@)))
            }),
        },
{
    let c = trim_exec(col);
    if c.len() == 0 {
        return None;
    }
    if contains_exec(&c, phrase) {
        return Some(ProcessSlot::NoProcess);
    }
    let na = chars_of("N/A");
    let tail = after_last_exec(&c, &na);
    let unit = vec!['C'];
    assert(unit@ =~= seq!['C']);
    let head = before_first_exec(&tail, &unit);
    let pid = trim_exec(&head);
    Some(ProcessSlot::Process { pid: string_of(&pid) })
}

/// The process slots of an accounting dump, in the order the table lists them.
pub fn split_gpu_users(nv_command_output: &str) -> (r: Vec<ProcessSlot>)
    ensures
        slots_match(r@, users_of_dump(nv_command_output@)),
{
    let s = chars_of(nv_command_output);
    let b = chars_of("=====|");
    let section = after_last_exec(&s, &b);
    let rule = vec!['+'];
    assert(rule@ =~= seq!['+']);
    let rows = before_first_exec(&section, &rule);
    let cols = split_exec(&rows, '|');
    let phrase = chars_of("No running processes found");
    let ghost colv = split(rows@, '|');
    let mut r: Vec<ProcessSlot> = Vec::new();
    let mut k: usize = 0;
    while k < cols.len()
        invariant
            k <= cols@.len() == colv.len(),
            forall|j: int| 0 <= j < cols@.len() ==> #[trigger] cols@[j]@ == colv[j],
            phrase@ == no_process_phrase(),
            slots_match(r@, slots_of(colv.subrange(0, k as int))),
        decreases cols@.len() - k,
    {
        let slot = classify_column(&cols[k], &phrase);
        proof {
            let pre = colv.subrange(0, k + 1);
            assert(pre.drop_last() =~= colv.subrange(0, k as int));
            assert(pre.last() == cols@[k as int]@);
        }
        match slot {
            Some(x) => {
                r.push(x);
            },
            None => {},
        }
        k = k + 1;
    }
    assert(colv.subrange(0, k as int) =~= colv);
    r
}

/// The process slots of an accounting dump; an error where the driver stack
/// did not answer.
pub fn parse_process_users(raw: &str) -> (r: Result<Vec<ProcessSlot>, ParseError>)
    ensures
        match r {
            Ok(v) => has_markers(raw@) && slots_match(v@, users_of_dump(raw@)),
            Err(e) => !has_markers(raw@) && e == ParseError::DriverUnavailable,
        },
{
    let s = chars_of(raw);
    let dm = chars_of("Driver Version:");
    let cm = chars_of("CUDA Version:");
    if contains_exec(&s, &dm) && contains_exec(&s, &cm) {
        Ok(split_gpu_users(raw))
    } else {
        Err(ParseError::DriverUnavailable)
    }
}

/// One card's sample. Each field keeps the unit text that the tool printed,
/// or reads `Err` where the field failed its unit check.
pub struct SingleCardDetail {
    pub name: String,
    pub driver_version: String,
    pub temperature_gpu: String,
    pub utilization_gpu: String,
    pub utilization_memory: String,
    pub memory_total: String,
    pub memory_free: String,
    pub memory_used: String,
}

impl View for SingleCardDetail {
    /// The eight fields, in the query's column order.
    type V = Seq<Seq<char>>;

    open spec fn view(&self) -> Seq<Seq<char>> {
        seq![
            self.name@,
            self.driver_version@,
            self.temperature_gpu@,
            self.utilization_gpu@,
            self.utilization_memory@,
            self.memory_total@,
            self.memory_free@,
            self.memory_used@,
        ]
    }
}

pub open spec fn blank_card() -> Seq<Seq<char>> {
    seq![Seq::empty(); 8]
}

/// A field of the query that must carry `unit`: its trimmed text, or `Err`.
pub open spec fn checked(f: Seq<char>, unit: Seq<char>) -> Seq<char> {
    if contains(trim(f), unit) {
        trim(f)
    } else {
        "Err"@
    }
}

/// The card that one CSV line of the device query describes.
pub open spec fn card_of_row(line: Seq<char>) -> Seq<Seq<char>> {
    let f = split(line, ',');
    if f.len() < 8 {
        blank_card()
    } else {
        seq![
            trim(f[0]),
            trim(f[1]),
            trim(f[2]),
            checked(f[3], "%"@),
            checked(f[4], "%"@),
            checked(f[5], "MiB"@),
            checked(f[6], "MiB"@),
            checked(f[7], "MiB"@),
        ]
    }
}

/// The lines of the device query: its trimmed text split at line breaks.
pub open spec fn query_lines(s: Seq<char>) -> Seq<Seq<char>> {
    split(trim(s), '\n')
}

/// The fields joined with separator `c`.
pub open spec fn join_with(f: Seq<Seq<char>>, c: char) -> Seq<char>
    decreases f.len(),
{
    if f.len() == 0 {
        Seq::empty()
    } else if f.len() == 1 {
        f[0]
    } else {
        f[0] + seq![c] + join_with(f.drop_first(), c)
    }
}

/// The unit that field `i` of the device query must carry.
pub open spec fn unit_of(i: int) -> Seq<char> {
    if i < 5 {
        "%"@
    } else {
        "MiB"@
    }
}

proof fn lemma_scan_piece(s: Seq<char>, c: char, start: int, i: int, j: int)
    requires
        0 <= start <= i <= j <= s.len(),
        forall|k: int| i <= k < j ==> s[k] != c,
        j == s.len() || s[j] == c,
    ensures
        split_scan(s, c, start, i) == if j == s.len() {
            seq![s.subrange(start, s.len() as int)]
        } else {
            seq![s.subrange(start, j)] + split_scan(s, c, j + 1, j + 1)
        },
    decreases j - i,
{
    if i < j {
        lemma_scan_piece(s, c, start, i + 1, j);
    }
}

proof fn lemma_scan_shift(pre: Seq<char>, b: Seq<char>, c: char, start: int, i: int)
    requires
        0 <= start <= i <= b.len(),
    ensures
        split_scan(pre + b, c, pre.len() + start, pre.len() + i) == split_scan(b, c, start, i),
    decreases b.len() - i,
{
    let s = pre + b;
    let n = pre.len() as int;
    if i < b.len() {
        assert(s[n + i] == b[i]);
        if b[i] == c {
            lemma_scan_shift(pre, b, c, i + 1, i + 1);
            assert(s.subrange(n + start, n + i) =~= b.subrange(start, i));
        } else {
            lemma_scan_shift(pre, b, c, start, i + 1);
        }
    } else {
        assert(s.subrange(n + start, s.len() as int) =~= b.subrange(start, b.len() as int));
    }
}

/// Splitting at `c` undoes joining with `c`, for fields free of `c`.
pub proof fn lemma_split_join(f: Seq<Seq<char>>, c: char)
    requires
        f.len() >= 1,
        forall|i: int, k: int| 0 <= i < f.len() && 0 <= k < f[i].len() ==> f[i][k] != c,
    ensures
        split(join_with(f, c), c) == f,
    decreases f.len(),
{
    let s = join_with(f, c);
    if f.len() == 1 {
        lemma_scan_piece(s, c, 0, 0, s.len() as int);
        assert(s.subrange(0, s.len() as int) =~= s);
        assert(seq![f[0]] =~= f);
    } else {
        let x = f[0];
        let rest = join_with(f.drop_first(), c);
        assert(s == x + seq![c] + rest);
        assert forall|k: int| 0 <= k < x.len() implies s[k] != c by {
            assert(s[k] == x[k]);
        }
        lemma_scan_piece(s, c, 0, 0, x.len() as int);
        lemma_split_join(f.drop_first(), c);
        lemma_scan_shift(x + seq![c], rest, c, 0, 0);
        assert(s.subrange(0, x.len() as int) =~= x);
        assert(seq![x] + f.drop_first() =~= f);
    }
}

/// A row of eight trimmed, comma-free fields parses back field by field: the
/// first three as they are, each of the last five as it is where it carries
/// its unit and as `Err` where it does not, whatever the other fields hold.
pub proof fn lemma_row_round_trip(f: Seq<Seq<char>>)
    requires
        f.len() == 8,
        forall|i: int| 0 <= i < 8 ==> #[trigger] trim(f[i]) == f[i],
        forall|i: int, k: int| 0 <= i < 8 && 0 <= k < f[i].len() ==> f[i][k] != ',',
    ensures
        forall|i: int| 0 <= i < 3 ==> #[trigger] card_of_row(join_with(f, ','))[i] == f[i],
        forall|i: int|
            3 <= i < 8 ==> #[trigger] card_of_row(join_with(f, ','))[i] == if contains(
                f[i],
                unit_of(i),
            ) {
                f[i]
            } else {
                "Err"@
            },
{
    lemma_split_join(f, ',');
    assert(trim(f[0]) == f[0]);
    assert(trim(f[1]) == f[1]);
    assert(trim(f[2]) == f[2]);
    assert(trim(f[3]) == f[3]);
    assert(trim(f[4]) == f[4]);
    assert(trim(f[5]) == f[5]);
    assert(trim(f[6]) == f[6]);
    assert(trim(f[7]) == f[7]);
}

impl SingleCardDetail {
    /// The sample with every field blank.
    pub fn empty() -> (r: SingleCardDetail)
        ensures
            r@ == blank_card(),
    {
        let r = SingleCardDetail {
            name: String::new(),
            driver_version: String::new(),
            temperature_gpu: String::new(),
            utilization_gpu: String::new(),
            utilization_memory: String::new(),
            memory_total: String::new(),
            memory_free: String::new(),
            memory_used: String::new(),
        };
        assert(r@ =~= blank_card());
        r
    }
}

fn checked_exec(f: &Vec<char>, unit: &Vec<char>) -> (r: String)
    ensures
        r@ == checked(f@, unit@),
{
    let t = trim_exec(f);
    if contains_exec(&t, unit) {
        string_of(&t)
    } else {
        "Err".to_string()
    }
}

/// The card that one CSV line describes: the blank card for a line of fewer
/// than eight fields, else the fields trimmed, with `Err` for each of the last
/// five that lacks its unit (`%` for the two utilizations, `MiB` for memory).
pub fn parse_device_row(line: &Vec<char>) -> (r: SingleCardDetail)
    ensures
        r@ == card_of_row(line@),
{
    let f = split_exec(line, ',');
    if f.len() < 8 {
        return SingleCardDetail::empty();
    }
    let pct = chars_of("%");
    let mib = chars_of("MiB");
    let r = SingleCardDetail {
        name: string_of(&trim_exec(&f[0])),
        driver_version: string_of(&trim_exec(&f[1])),
        temperature_gpu: string_of(&trim_exec(&f[2])),
        utilization_gpu: checked_exec(&f[3], &pct),
        utilization_memory: checked_exec(&f[4], &pct),
        memory_total: checked_exec(&f[5], &mib),
        memory_free: checked_exec(&f[6], &mib),
        memory_used: checked_exec(&f[7], &mib),
    };
    assert(r@ =~= card_of_row(line@));
    r
}

/// One card per line of the device query, in order. Never fails: a bad line
/// gives the blank card, a bad field gives `Err`.
pub fn parse_device_query(raw: &str) -> (r: Vec<SingleCardDetail>)
    ensures
        r@.len() == query_lines(raw@).len(),
        forall|i: int| 0 <= i < r@.len() ==> #[trigger] r@[i]@ == card_of_row(query_lines(raw@)[i]),
{
    let s = chars_of(raw);
    let t = trim_exec(&s);
    let lines = split_exec(&t, '\n');
    let mut r: Vec<SingleCardDetail> = Vec::new();
    let mut k: usize = 0;
    while k < lines.len()
        invariant
            k <= lines@.len() == query_lines(raw@).len(),
            forall|j: int| 0 <= j < lines@.len() ==> #[trigger] lines@[j]@ == query_lines(raw@)[j],
            r@.len() == k,
            forall|i: int| 0 <= i < k ==> #[trigger] r@[i]@ == card_of_row(query_lines(raw@)[i]),
        decreases lines@.len() - k,
    {
        let card = parse_device_row(&lines[k]);
        r.push(card);
        k = k + 1;
    }
    r
}

/// The GPU part of a host snapshot: the cards of the device query and the
/// user descriptors of the accounting dump.
pub struct ServerCardsInfo {
    pub details: Vec<SingleCardDetail>,
    pub users: Vec<String>,
}

pub open spec fn users_view(v: Seq<String>) -> Seq<Seq<char>> {
    v.map_values(|u: String| u@)
}

pub open spec fn cards_view(v: Seq<SingleCardDetail>) -> Seq<Seq<Seq<char>>> {
    v.map_values(|c: SingleCardDetail| c@)
}

impl ServerCardsInfo {
    /// The stand-in snapshot for a poll whose GPU part failed: one blank
    /// card and the user `null`.
    pub fn empty() -> (r: ServerCardsInfo)
        ensures
            cards_view(r.details@) == seq![blank_card()],
            users_view(r.users@) == seq!["null"@],
    {
        let detail = SingleCardDetail::empty();
        let r = ServerCardsInfo { details: vec![detail], users: vec!["null".to_string()] };
        assert(cards_view(r.details@) =~= seq![blank_card()]);
        assert(users_view(r.users@) =~= seq!["null"@]);
        r
    }

    /// The snapshot of a poll whose driver stack did not answer: one blank
    /// card and the user `driver failed`.
    pub fn driver_failure() -> (r: ServerCardsInfo)
        ensures
            cards_view(r.details@) == seq![blank_card()],
            users_view(r.users@) == seq![GpuUser::DriverFailure.text_spec()],
    {
        let detail = SingleCardDetail::empty();
        let u = GpuUser::DriverFailure.text();
        let r = ServerCardsInfo { details: vec![detail], users: vec![u] };
        assert(cards_view(r.details@) =~= seq![blank_card()]);
        assert(users_view(r.users@) =~= seq![GpuUser::DriverFailure.text_spec()]);
        r
    }

    /// The snapshot of a poll that read both outputs.
    pub fn from_parts(details: Vec<SingleCardDetail>, users: &Vec<GpuUser>) -> (r: ServerCardsInfo)
        ensures
            r.details@ == details@,
            r.users@.len() == users@.len(),
            forall|i: int| 0 <= i < users@.len() ==> #[trigger] r.users@[i]@ == users@[i].text_spec(),
    {
        let mut texts: Vec<String> = Vec::new();
        let mut k: usize = 0;
        while k < users.len()
            invariant
                k <= users@.len(),
                texts@.len() == k,
                forall|i: int| 0 <= i < k ==> #[trigger] texts@[i]@ == users@[i].text_spec(),
            decreases users@.len() - k,
        {
            texts.push(users[k].text());
            k = k + 1;
        }
        ServerCardsInfo { details, users: texts }
    }
}

/// The GPU part of a report: what the poll collected, where GPU telemetry is
/// on and the poll succeeded; the empty snapshot otherwise, so that a failed
/// GPU poll never fails the report.
pub fn gpu_report(enabled: bool, collected: Option<ServerCardsInfo>) -> (r: ServerCardsInfo)
    ensures
        enabled && collected is Some ==> r == collected->0,
        !(enabled && collected is Some) ==> cards_view(r.details@) == seq![blank_card()]
            && users_view(r.users@) == seq!["null"@],
{
    if enabled {
        match collected {
            Some(g) => g,
            None => ServerCardsInfo::empty(),
        }
    } else {
        ServerCardsInfo::empty()
    }
}

/// Who holds a GPU process slot.
pub enum GpuUser {
    /// No process holds a card.
    NoProcess,
    /// The driver stack did not answer.
    DriverFailure,
    /// A process, by the directory it runs in.
    WorkingDirectory(String),
}

impl GpuUser {
    pub open spec fn text_spec(&self) -> Seq<char> {
        match self {
            GpuUser::NoProcess => "no running processes found"@,
            GpuUser::DriverFailure => "driver failed"@,
            GpuUser::WorkingDirectory(p) => p@,
        }
    }

    /// The descriptor as it is stored in a snapshot.
    pub fn text(&self) -> (r: String)
        ensures
            r@ == self.text_spec(),
    {
        match self {
            GpuUser::NoProcess => "no running processes found".to_string(),
            GpuUser::DriverFailure => "driver failed".to_string(),
            GpuUser::WorkingDirectory(p) => p.clone(),
        }
    }
}

} // verus!
