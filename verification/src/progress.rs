//! The progress of a transfer: on the terminal, and in a list of tasks.

use vstd::prelude::*;
use vstd::string::*;
use crate::binary;
use crate::binary::Float;
use crate::size;
use crate::size::human_bytes;
use crate::text;
use crate::text::numeral;

verus! {

/// The width of the progress bar.
pub const BAR_WIDTH: usize = 26;

/// How long the terminal shows a line before the next replaces it, in
/// nanoseconds.
pub const REDRAW_AFTER: u128 = 80000000;

/// The bits of the double 0.001.
pub const SHORTEST: u64 = 0x3f50_624d_d2f1_a9fc;

/// A transfer, as it is listed.
#[derive(Clone)]
pub struct TaskState {
    pub id: u64,
    pub kind: String,
    pub name: String,
    pub key: String,
    pub out: String,
    pub total: u64,
    pub done: u64,
    pub speed: u64,
    /// `running`, `done` or `error`.
    pub status: String,
    pub error: String,
    pub url: String,
}

/// What is listed of a transfer.
#[verifier::ext_equal]
pub ghost struct Task {
    pub id: nat,
    pub kind: Seq<char>,
    pub name: Seq<char>,
    pub key: Seq<char>,
    pub out: Seq<char>,
    pub total: nat,
    pub done: nat,
    pub speed: nat,
    pub status: Seq<char>,
    pub error: Seq<char>,
    pub url: Seq<char>,
}

impl View for TaskState {
    type V = Task;

    open spec fn view(&self) -> Task {
        Task {
            id: self.id as nat,
            kind: self.kind@,
            name: self.name@,
            key: self.key@,
            out: self.out@,
            total: self.total as nat,
            done: self.done as nat,
            speed: self.speed as nat,
            status: self.status@,
            error: self.error@,
            url: self.url@,
        }
    }
}

/// What is listed of all transfers.
pub open spec fn tasks(v: Seq<TaskState>) -> Seq<Task> {
    v.map_values(|t: TaskState| t@)
}

/// The position of the first task with this id.
pub open spec fn task_at(v: Seq<Task>, id: nat) -> Option<int>
    decreases v.len(),
{
    if v.len() == 0 {
        None
    } else if v[0].id == id {
        Some(0)
    } else {
        match task_at(v.skip(1), id) {
            Some(i) => Some(i + 1),
            None => None,
        }
    }
}

/// The position of a task is that of the first with its id.
pub proof fn lemma_task_at(v: Seq<Task>, id: nat)
    ensures
        match task_at(v, id) {
            Some(i) => 0 <= i < v.len() && v[i].id == id && forall|k: int|
                0 <= k < i ==> (#[trigger] v[k]).id != id,
            None => forall|k: int| 0 <= k < v.len() ==> (#[trigger] v[k]).id != id,
        },
    decreases v.len(),
{
    if v.len() > 0 && v[0].id != id {
        lemma_task_at(v.skip(1), id);
        assert forall|k: int| 0 < k < v.len() implies #[trigger] v[k] == v.skip(1)[k - 1] by {}
    }
}

/// The position of the first task with this id.
pub fn find_task(v: &Vec<TaskState>, id: u64) -> (r: Option<usize>)
    ensures
        match r {
            Some(i) => i < v@.len() && task_at(tasks(v@), id as nat) == Some(i as int),
            None => task_at(tasks(v@), id as nat) is None,
        },
{
    let ghost all = tasks(v@);
    proof {
        lemma_task_at(all, id as nat);
    }
    let mut i: usize = 0;
    while i < v.len()
        invariant
            i <= v@.len(),
            all == tasks(v@),
            forall|k: int| 0 <= k < i ==> (#[trigger] all[k]).id != id,
            match task_at(all, id as nat) {
                Some(i) => 0 <= i < all.len() && all[i].id == id && forall|k: int|
                    0 <= k < i ==> (#[trigger] all[k]).id != id,
                None => forall|k: int| 0 <= k < all.len() ==> (#[trigger] all[k]).id != id,
            },
        decreases v@.len() - i,
    {
        assert(all[i as int].id == v@[i as int].id);
        if v[i].id == id {
            return Some(i);
        }
        i = i + 1;
    }
    None
}

// ---------------------------------------------------------------------------
// The numbers that are shown.
// ---------------------------------------------------------------------------

/// `done` of `total`, as a double.
pub open spec fn ratio(done: nat, total: nat) -> binary::Dyadic {
    binary::over(binary::nearest(done, 1, 53), binary::nearest(total, 1, 53), 53)
}

/// `scale` times `done` of `total`, without its fraction; zero where nothing
/// is known of the total.
pub open spec fn scaled_ratio(done: nat, total: nat, scale: nat) -> u64 {
    if total > 0 {
        binary::truncated(binary::times(ratio(done, total), scale, 53))
    } else {
        0
    }
}

/// The bytes per second, where `done` bytes took the time that `elapsed`
/// stands for.
pub open spec fn rate(done: nat, elapsed: nat) -> binary::Dyadic {
    if elapsed > 0 {
        binary::over(binary::nearest(done, 1, 53), binary::double_value(elapsed), 53)
    } else {
        binary::Dyadic { m: 0, e: 0 }
    }
}

/// Whether `x` is greater than one.
pub open spec fn exceeds_one(x: binary::Dyadic) -> bool {
    x.num() > x.den()
}

/// How many of the characters of the bar are filled.
pub open spec fn filled(done: nat, total: nat) -> nat {
    let n = scaled_ratio(done, total, BAR_WIDTH as nat);
    if n < BAR_WIDTH {
        n as nat
    } else {
        BAR_WIDTH as nat
    }
}

/// `n` times the character `c`.
pub open spec fn repeated(c: char, n: nat) -> Seq<char> {
    Seq::new(n, |i: int| c)
}

/// The progress bar.
pub open spec fn bar(done: nat, total: nat) -> Seq<char> {
    let n = filled(done, total);
    repeated('#', n) + repeated('-', (BAR_WIDTH - n) as nat)
}

/// The numeral of `n`, at least three characters wide.
pub open spec fn three_wide(n: nat) -> Seq<char> {
    let d = text::decimal(n);
    if d.len() < 3 {
        repeated(' ', (3 - d.len()) as nat) + d
    } else {
        d
    }
}

/// How long the rest takes at this rate, where something is left and the rate
/// is more than a byte per second.
pub open spec fn eta_text(done: nat, total: nat, speed: binary::Dyadic) -> Seq<char> {
    if total > done && exceeds_one(speed) {
        "  eta "@ + text::decimal(
            binary::truncated(
                binary::over(binary::nearest((total - done) as nat, 1, 53), speed, 53),
            ) as nat,
        ) + "s"@
    } else {
        Seq::empty()
    }
}

/// The bytes that are done, and those that there are, where this is known.
pub open spec fn amount_text(done: nat, total: nat) -> Seq<char> {
    if total > 0 {
        "  "@ + size::size_text(done) + "/"@ + size::size_text(total)
    } else {
        "  "@ + size::size_text(done)
    }
}

/// The line that is shown of a transfer.
pub open spec fn line_text(
    label: Seq<char>,
    done: nat,
    total: nat,
    pct: nat,
    elapsed: nat,
) -> Seq<char> {
    let speed = rate(done, elapsed);
    label + " ["@ + bar(done, total) + "] "@ + three_wide(pct) + "%"@ + amount_text(done, total)
        + "  "@ + size::size_text(binary::truncated(speed) as nat) + "/s"@ + eta_text(
        done,
        total,
        speed,
    )
}

fn scaled_part(done: u64, total: u64, scale: u32) -> (n: u64)
    ensures
        n == scaled_ratio(done as nat, total as nat, scale as nat),
{
    if total > 0 {
        let r = Float::over(Float::from_u64(done, 53), Float::from_u64(total, 53), 53);
        Float::times(r, scale, 53).to_u64()
    } else {
        0
    }
}

fn speed_of(done: u64, elapsed: u64) -> (r: Float)
    requires
        elapsed < 0x7ff0_0000_0000_0000,
    ensures
        r.value() == rate(done as nat, elapsed as nat),
        -1300 <= r.e <= 1300,
        r.m <= 0x20_0000_0000_0000,
{
    if elapsed > 0 {
        Float::over(Float::from_u64(done, 53), Float::from_bits(elapsed), 53)
    } else {
        Float { m: 0, e: 0 }
    }
}

fn push_repeated(s: &mut String, c: char, n: usize)
    ensures
        final(s)@ == old(s)@ + repeated(c, n as nat),
{
    let ghost start = s@;
    let mut i: usize = 0;
    assert(start + repeated(c, 0) =~= start);
    while i < n
        invariant
            i <= n,
            s@ == start + repeated(c, i as nat),
        decreases n - i,
    {
        s.push(c);
        i = i + 1;
        assert(s@ =~= start + repeated(c, i as nat));
    }
}

fn time_left(done: u64, total: u64, speed: Float) -> (s: String)
    requires
        -1300 <= speed.e <= 1300,
    ensures
        s@ == eta_text(done as nat, total as nat, speed.value()),
{
    let mut s = String::new();
    if total > done && speed.exceeds_one() {
        proof {
            if speed.m == 0 {
                assert(0 * vstd::arithmetic::power2::pow2(speed.e as nat) == 0)
                    by (nonlinear_arith);
            }
        }
        s.append("  eta ");
        let left = Float::over(Float::from_u64(total - done, 53), speed, 53);
        s.append(numeral(left.to_u64() as u128).as_str());
        s.append("s");
        assert(s@ =~= eta_text(done as nat, total as nat, speed.value()));
    }
    s
}

fn bar_text(done: u64, total: u64) -> (s: String)
    ensures
        s@ == bar(done as nat, total as nat),
{
    let part: u64 = scaled_part(done, total, 26);
    let full: usize = if part < 26 {
        part as usize
    } else {
        26
    };
    let mut s = String::new();
    push_repeated(&mut s, '#', full);
    push_repeated(&mut s, '-', 26 - full);
    assert(s@ =~= bar(done as nat, total as nat));
    s
}

fn aligned(n: u64) -> (s: String)
    ensures
        s@ == three_wide(n as nat),
{
    let digits = numeral(n as u128);
    let width: usize = digits.as_str().unicode_len();
    let mut s = String::new();
    if width < 3 {
        push_repeated(&mut s, ' ', 3 - width);
    }
    s.append(digits.as_str());
    assert(s@ =~= three_wide(n as nat));
    s
}

fn amount(done: u64, total: u64) -> (s: String)
    ensures
        s@ == amount_text(done as nat, total as nat),
{
    let mut s = "  ".to_string();
    s.append(human_bytes(done).as_str());
    if total > 0 {
        s.append("/");
        s.append(human_bytes(total).as_str());
    }
    s
}

fn render(label: &str, done: u64, total: u64, pct: u64, elapsed: u64) -> (s: String)
    requires
        elapsed < 0x7ff0_0000_0000_0000,
    ensures
        s@ == line_text(label@, done as nat, total as nat, pct as nat, elapsed as nat),
{
    let speed = speed_of(done, elapsed);
    let mut s = label.to_string();
    s.append(" [");
    s.append(bar_text(done, total).as_str());
    s.append("] ");
    s.append(aligned(pct).as_str());
    s.append("%");
    s.append(amount(done, total).as_str());
    s.append("  ");
    s.append(human_bytes(speed.to_u64()).as_str());
    s.append("/s");
    s.append(time_left(done, total, speed).as_str());
    s
}

/// The bar has always the same width.
pub proof fn law_bar_width(done: nat, total: nat)
    ensures
        bar(done, total).len() == BAR_WIDTH,
        filled(done, total) <= BAR_WIDTH,
{
}

/// As long as no more is done than there is, the percentage is at most 100.
pub proof fn law_percentage_bounded(done: nat, total: nat)
    requires
        done <= total,
    ensures
        scaled_ratio(done, total, 100) <= 100,
{
    if total > 0 {
        vstd::arithmetic::power2::lemma2_to64();
        vstd::arithmetic::power2::lemma2_to64_rest();
        let x = binary::nearest(done, 1, 53);
        let y = binary::nearest(total, 1, 53);
        assert(done * 1 <= total * 1);
        binary::lemma_nearest_monotone(done, 1, total, 1, 53);
        binary::lemma_nearest_bounds(total, 1, 53);
        binary::lemma_over_bounded(x, y, 53);
        binary::lemma_times_bounded(ratio(done, total), 100, 53);
    }
}

/// The more is done, the greater, or as great, are the percentage and the
/// filled part of the bar.
pub proof fn law_progress_monotone(less: nat, more: nat, total: nat)
    requires
        less <= more,
    ensures
        scaled_ratio(less, total, 100) <= scaled_ratio(more, total, 100),
        filled(less, total) <= filled(more, total),
{
    lemma_scaled_monotone(less, more, total, 100);
    lemma_scaled_monotone(less, more, total, BAR_WIDTH as nat);
}

proof fn lemma_scaled_monotone(less: nat, more: nat, total: nat, scale: nat)
    requires
        less <= more,
        scale > 0,
    ensures
        scaled_ratio(less, total, scale) <= scaled_ratio(more, total, scale),
{
    if total > 0 && more > 0 {
        let x = binary::nearest(less, 1, 53);
        let y = binary::nearest(more, 1, 53);
        let d = binary::nearest(total, 1, 53);
        vstd::arithmetic::power2::lemma_pow2_pos(52);
        binary::lemma_nearest_monotone(less, 1, more, 1, 53);
        binary::lemma_nearest_bounds(more, 1, 53);
        binary::lemma_nearest_bounds(total, 1, 53);
        binary::lemma_over_monotone(x, y, d, 53);
        let a = ratio(less, total);
        let b = ratio(more, total);
        binary::lemma_times_monotone(a, b, scale, 53);
        binary::lemma_truncated_monotone(
            binary::times(a, scale, 53),
            binary::times(b, scale, 53),
        );
    }
}

// ---------------------------------------------------------------------------
// A transfer under way.
// ---------------------------------------------------------------------------

/// The progress of a transfer.
pub struct Progress {
    label: String,
    total: u64,
    done: u64,
    last_pct: u64,
    tty: bool,
    enabled: bool,
    finished: bool,
    task: Option<u64>,
}

/// What is known of the progress of a transfer.
#[verifier::ext_equal]
pub ghost struct State {
    pub label: Seq<char>,
    pub total: nat,
    pub done: nat,
    /// The percentage that was shown last.
    pub last_pct: nat,
    /// Whether lines go to a terminal, which shows one in place of the last.
    pub tty: bool,
    /// Whether lines are shown at all.
    pub enabled: bool,
    pub finished: bool,
    /// The task in the list that stands for the transfer.
    pub task: Option<nat>,
}

impl View for Progress {
    type V = State;

    closed spec fn view(&self) -> State {
        State {
            label: self.label@,
            total: self.total as nat,
            done: self.done as nat,
            last_pct: self.last_pct as nat,
            tty: self.tty,
            enabled: self.enabled,
            finished: self.finished,
            task: match self.task {
                Some(id) => Some(id as nat),
                None => None,
            },
        }
    }
}

/// When something happens.
#[derive(Clone, Copy)]
pub struct Moment {
    /// The seconds since the transfer began, as the bits of a double.
    pub elapsed: u64,
    /// The nanoseconds since a line was last shown.
    pub since_draw: u128,
}

impl Moment {
    /// Whether the seconds are a number that is not negative and not infinite.
    pub open spec fn valid(self) -> bool {
        self.elapsed < 0x7ff0_0000_0000_0000
    }
}

/// The percentage that is done.
pub open spec fn percentage(s: State) -> nat {
    scaled_ratio(s.done, s.total, 100) as nat
}

/// Whether a line is shown. A terminal is spared lines in quick succession;
/// elsewhere a line comes with every five per cent, and at the end.
pub open spec fn is_drawn(s: State, force: bool, at: Moment) -> bool {
    s.enabled && (force || if s.tty {
        at.since_draw >= REDRAW_AFTER
    } else {
        percentage(s) / 5 != s.last_pct / 5 || s.done == s.total
    })
}

/// What is written for a line: on a terminal it takes the place of the last.
pub open spec fn shown(s: State, at: Moment) -> Seq<char> {
    let line = line_text(s.label, s.done, s.total, percentage(s), at.elapsed as nat);
    if s.tty {
        "\r"@ + line
    } else {
        line + "\n"@
    }
}

/// The state after a line may have been shown.
pub open spec fn drawn(s: State, force: bool, at: Moment) -> State {
    if is_drawn(s, force, at) {
        State { last_pct: percentage(s), ..s }
    } else {
        s
    }
}

/// Whether `r` is what is written, if a line is shown.
pub open spec fn is_output(r: Option<String>, s: State, force: bool, at: Moment) -> bool {
    text::text_of(r) == (if is_drawn(s, force, at) {
        Some(shown(s, at))
    } else {
        None
    })
}

/// The bytes per second that are listed.
pub open spec fn listed_speed(done: nat, elapsed: nat) -> nat {
    let t = if elapsed < SHORTEST {
        SHORTEST as nat
    } else {
        elapsed
    };
    binary::truncated(rate(done, t)) as nat
}

/// The list of tasks, with what is known of the transfer.
pub open spec fn listed(v: Seq<Task>, s: State, status: Option<Seq<char>>, at: Moment) -> Seq<
    Task,
> {
    match s.task {
        Some(id) => match task_at(v, id) {
            Some(i) => v.update(
                i,
                Task {
                    done: s.done,
                    total: s.total,
                    speed: listed_speed(s.done, at.elapsed as nat),
                    status: match status {
                        Some(t) => t,
                        None => v[i].status,
                    },
                    ..v[i]
                },
            ),
            None => v,
        },
        None => v,
    }
}

impl Progress {
    /// A transfer whose lines are shown where `enabled`.
    pub fn new(label: &str, total: u64, enabled: bool, tty: bool) -> (p: Progress)
        ensures
            p@ == (State {
                label: label@,
                total: total as nat,
                done: 0,
                last_pct: 0,
                tty,
                enabled,
                finished: false,
                task: None,
            }),
    {
        Progress {
            label: label.to_string(),
            total,
            done: 0,
            last_pct: 0,
            tty,
            enabled,
            finished: false,
            task: None,
        }
    }

    /// A transfer that is shown in the list of tasks.
    pub fn for_shared(id: u64) -> (p: Progress)
        ensures
            p@ == (State {
                label: Seq::empty(),
                total: 0,
                done: 0,
                last_pct: 0,
                tty: false,
                enabled: false,
                finished: false,
                task: Some(id as nat),
            }),
    {
        let p = Progress {
            label: String::new(),
            total: 0,
            done: 0,
            last_pct: 0,
            tty: false,
            enabled: false,
            finished: false,
            task: Some(id),
        };
        assert(p@.label =~= Seq::<char>::empty());
        p
    }

    /// The bytes that are done.
    pub fn done(&self) -> (n: u64)
        ensures
            n == self@.done,
    {
        self.done
    }

    fn draw(&mut self, force: bool, at: &Moment) -> (r: Option<String>)
        requires
            at.valid(),
        ensures
            final(self)@ == drawn(old(self)@, force, *at),
            is_output(r, old(self)@, force, *at),
    {
        if !self.enabled {
            return None;
        }
        if !force && self.tty && at.since_draw < REDRAW_AFTER {
            return None;
        }
        let pct: u64 = scaled_part(self.done, self.total, 100);
        if !force && !self.tty && pct / 5 == self.last_pct / 5 && self.done != self.total {
            return None;
        }
        let line = render(self.label.as_str(), self.done, self.total, pct, at.elapsed);
        self.last_pct = pct;
        if self.tty {
            let mut s = "\r".to_string();
            s.append(line.as_str());
            Some(s)
        } else {
            let mut s = line;
            s.append("\n");
            Some(s)
        }
    }

    fn sync(&self, v: &mut Vec<TaskState>, status: Option<&str>, at: &Moment)
        requires
            at.valid(),
        ensures
            tasks(final(v)@) == listed(
                tasks(old(v)@),
                self@,
                match status {
                    Some(t) => Some(t@),
                    None => None,
                },
                *at,
            ),
    {
        let ghost before = tasks(v@);
        match self.task {
            Some(id) => match find_task(v, id) {
                Some(i) => {
                    let elapsed: u64 = if at.elapsed < SHORTEST {
                        SHORTEST
                    } else {
                        at.elapsed
                    };
                    let mut t = v.remove(i);
                    t.done = self.done;
                    t.total = self.total;
                    t.speed = speed_of(self.done, elapsed).to_u64();
                    match status {
                        Some(s) => {
                            t.status = s.to_string();
                        },
                        None => {},
                    }
                    v.insert(i, t);
                    assert(tasks(v@) =~= before.update(i as int, t@));
                },
                None => {},
            },
            None => {},
        }
    }

    /// Sets what there is to transfer.
    pub fn set_total(&mut self, total: u64, at: &Moment, v: &mut Vec<TaskState>)
        requires
            at.valid(),
        ensures
            final(self)@ == (State { total: total as nat, ..old(self)@ }),
            tasks(final(v)@) == listed(tasks(old(v)@), final(self)@, None, *at),
    {
        self.total = total;
        self.sync(v, None, at);
    }

    /// Sets what is done. Returns what is to be written.
    pub fn set(&mut self, done: u64, at: &Moment, v: &mut Vec<TaskState>) -> (r: Option<String>)
        requires
            at.valid(),
        ensures
            ({
                let s = State { done: done as nat, ..old(self)@ };
                &&& final(self)@ == drawn(s, false, *at)
                &&& is_output(r, s, false, *at)
                &&& tasks(final(v)@) == listed(tasks(old(v)@), s, None, *at)
            }),
    {
        self.done = done;
        let r = self.draw(false, at);
        self.sync(v, None, at);
        r
    }

    /// Adds to what is done. Returns what is to be written.
    pub fn inc(&mut self, n: u64, at: &Moment, v: &mut Vec<TaskState>) -> (r: Option<String>)
        requires
            at.valid(),
            old(self)@.done + n <= u64::MAX,
        ensures
            ({
                let s = State { done: (old(self)@.done + n) as nat, ..old(self)@ };
                &&& final(self)@ == drawn(s, false, *at)
                &&& is_output(r, s, false, *at)
                &&& tasks(final(v)@) == listed(tasks(old(v)@), s, None, *at)
            }),
    {
        self.set(self.done + n, at, v)
    }

    /// Ends the transfer: the last line is shown, and the task is done. To end
    /// it once more changes nothing. Returns what is to be written.
    pub fn finish(&mut self, at: &Moment, v: &mut Vec<TaskState>) -> (r: Option<String>)
        requires
            at.valid(),
        ensures
            old(self)@.finished ==> final(self)@ == old(self)@ && tasks(final(v)@) == tasks(
                old(v)@,
            ) && r is None,
            !old(self)@.finished ==> ({
                let s = State { finished: true, ..old(self)@ };
                &&& final(self)@ == drawn(s, true, *at)
                &&& tasks(final(v)@) == listed(tasks(old(v)@), s, Some("done"@), *at)
                &&& text::text_of(r) == (if s.enabled {
                    Some(shown(s, *at) + "\n"@)
                } else {
                    None
                })
            }),
    {
        if self.finished {
            return None;
        }
        self.finished = true;
        let r = self.draw(true, at);
        self.sync(v, Some("done"), at);
        match r {
            Some(mut s) => {
                s.append("\n");
                Some(s)
            },
            None => None,
        }
    }
}

// ---------------------------------------------------------------------------
// What is shown, call by call.
// ---------------------------------------------------------------------------

/// Nothing done is no per cent, and no part of the bar; all done is a hundred per
/// cent, and the whole bar. Where nothing is known of the total, there is no
/// percentage.
pub proof fn law_progress_ends(done: nat, total: nat)
    ensures
        scaled_ratio(done, 0, 100) == 0,
        filled(done, 0) == 0,
        scaled_ratio(0, total, 100) == 0,
        filled(0, total) == 0,
        total > 0 ==> scaled_ratio(total, total, 100) == 100,
        total > 0 ==> filled(total, total) == 26,
{
    if total > 0 {
        lemma_part_of_same(total, 100);
        lemma_part_of_same(total, 26);
        lemma_part_of_none(total, 100);
        lemma_part_of_none(total, 26);
    }
}

proof fn lemma_part_of_same(total: nat, scale: nat)
    requires
        total > 0,
        scale <= 100,
    ensures
        scaled_ratio(total, total, scale) == scale,
{
    vstd::arithmetic::power2::lemma2_to64();
    vstd::arithmetic::power2::lemma2_to64_rest();
    let x = binary::nearest(total, 1, 53);
    binary::lemma_nearest_bounds(total, 1, 53);
    lemma_positive(x);
    let p = x.num() * x.den();
    assert(p > 0 && x.den() * x.num() == p && p == 1 * p) by (nonlinear_arith)
        requires
            p == x.num() * x.den(),
            x.num() > 0,
            x.den() > 0,
    ;
    binary::lemma_nearest_whole(p, p, 1, 53);
    binary::lemma_times_whole(ratio(total, total), 1, scale, 53);
}

/// A number with a mantissa is not zero.
pub proof fn lemma_positive(x: binary::Dyadic)
    requires
        x.m > 0,
    ensures
        x.num() > 0,
        x.den() > 0,
{
    if x.e >= 0 {
        vstd::arithmetic::power2::lemma_pow2_pos(x.e as nat);
        assert(x.m * vstd::arithmetic::power2::pow2(x.e as nat) > 0) by (nonlinear_arith)
            requires
                x.m > 0,
                vstd::arithmetic::power2::pow2(x.e as nat) > 0,
        ;
    } else {
        vstd::arithmetic::power2::lemma_pow2_pos((-x.e) as nat);
    }
}

proof fn lemma_part_of_none(total: nat, scale: nat)
    requires
        total > 0,
    ensures
        scaled_ratio(0, total, scale) == 0,
{
    vstd::arithmetic::power2::lemma2_to64();
    vstd::arithmetic::power2::lemma2_to64_rest();
    let x = binary::nearest(0, 1, 53);
    let y = binary::nearest(total, 1, 53);
    binary::lemma_nearest_zero(1, 53);
    binary::lemma_nearest_bounds(total, 1, 53);
    lemma_positive(y);
    assert(x.num() == 0) by (nonlinear_arith)
        requires
            x.num() == 0 * vstd::arithmetic::power2::pow2(0),
    ;
    let q = x.den() * y.num();
    assert(x.num() * y.den() == 0 * q && q > 0) by (nonlinear_arith)
        requires
            x.num() == 0,
            x.den() == 1,
            y.num() > 0,
            q == x.den() * y.num(),
    ;
    binary::lemma_nearest_whole(x.num() * y.den(), q, 0, 53);
    assert(0 * scale == 0) by (nonlinear_arith);
    binary::lemma_times_whole(ratio(0, total), 0, scale, 53);
}

/// Where `n` seconds, a whole number of them, went by, and `k` bytes were done
/// in each, the speed is `k` bytes per second.
pub proof fn law_speed(k: nat, n: nat, elapsed: nat)
    requires
        n > 0,
        k * n <= 0x20_0000_0000_0000,
        k <= 0x20_0000_0000_0000,
        elapsed >= SHORTEST,
        binary::double_value(elapsed).num() == n * binary::double_value(elapsed).den(),
    ensures
        binary::truncated(rate(k * n, elapsed)) == k,
        listed_speed(k * n, elapsed) == k,
{
    vstd::arithmetic::power2::lemma2_to64();
    vstd::arithmetic::power2::lemma2_to64_rest();
    binary::lemma_nearest_exact(k * n, 53);
    binary::lemma_over_whole(
        binary::nearest(k * n, 1, 53),
        binary::double_value(elapsed),
        k * n,
        n,
        k,
        53,
    );
}

/// The bar is as wide as ever, filled from the left.
pub proof fn law_bar(done: nat, total: nat)
    ensures
        bar(done, total).len() == 26,
        forall|i: int|
            0 <= i < 26 ==> #[trigger] bar(done, total)[i] == (if i < filled(done, total) {
                '#'
            } else {
                '-'
            }),
{
}

/// A line shows the label, the bar, the percentage, what is done and what there
/// is, where this is known, the speed, and, where the rest has a time, that
/// time. On a terminal it takes the place of the last line, elsewhere it is a
/// line of its own.
pub proof fn law_line(s: State, at: Moment)
    ensures
        ({
            let pct = text::decimal(scaled_ratio(s.done, s.total, 100) as nat);
            let wide = if pct.len() == 1 {
                seq![' ', ' '] + pct
            } else if pct.len() == 2 {
                seq![' '] + pct
            } else {
                pct
            };
            let amount = if s.total > 0 {
                "  "@ + size::size_text(s.done) + "/"@ + size::size_text(s.total)
            } else {
                "  "@ + size::size_text(s.done)
            };
            let speed = rate(s.done, at.elapsed as nat);
            let line = s.label + " ["@ + bar(s.done, s.total) + "] "@ + wide + "%"@ + amount
                + "  "@ + size::size_text(binary::truncated(speed) as nat) + "/s"@ + eta_text(
                s.done,
                s.total,
                speed,
            );
            &&& s.tty ==> shown(s, at) == "\r"@ + line
            &&& !s.tty ==> shown(s, at) == line + "\n"@
        }),
{
    let pct = text::decimal(scaled_ratio(s.done, s.total, 100) as nat);
    text::lemma_decimal_digits(scaled_ratio(s.done, s.total, 100) as nat);
    if pct.len() == 1 {
        assert(three_wide(scaled_ratio(s.done, s.total, 100) as nat) =~= seq![' ', ' '] + pct);
    } else if pct.len() == 2 {
        assert(three_wide(scaled_ratio(s.done, s.total, 100) as nat) =~= seq![' '] + pct);
    }
}

/// The rest has a time where something is left and the speed is more than a
/// byte per second: where `k` times the speed is left, `k` seconds.
pub proof fn law_time_left(done: nat, total: nat, speed: binary::Dyadic, n: nat, k: nat)
    requires
        speed.num() == n * speed.den(),
        done + k * n == total,
        k * n <= 0x20_0000_0000_0000,
        k <= 0x20_0000_0000_0000,
    ensures
        n > 1 && k > 0 ==> eta_text(done, total, speed) == "  eta "@ + text::decimal(k) + "s"@,
        n <= 1 || k == 0 ==> eta_text(done, total, speed).len() == 0,
{
    vstd::arithmetic::power2::lemma2_to64();
    vstd::arithmetic::power2::lemma2_to64_rest();
    if speed.e < 0 {
        vstd::arithmetic::power2::lemma_pow2_pos((-speed.e) as nat);
    }
    assert(speed.den() > 0);
    if n > 1 && k > 0 {
        assert(k * n > 0 && n * speed.den() > speed.den()) by (nonlinear_arith)
            requires
                n > 1,
                k > 0,
                speed.den() > 0,
        ;
        binary::lemma_nearest_exact(k * n, 53);
        binary::lemma_over_whole(binary::nearest(k * n, 1, 53), speed, k * n, n, k, 53);
    } else if k == 0 {
        assert(k * n == 0) by (nonlinear_arith)
            requires
                k == 0,
        ;
    } else {
        assert(n * speed.den() <= speed.den()) by (nonlinear_arith)
            requires
                n <= 1,
                speed.den() > 0,
        ;
    }
}

/// What is done is what is set. A line is shown where lines are shown at all: on
/// a terminal 80 milliseconds after the last, elsewhere with every five per cent
/// and at the end.
pub proof fn law_progress_set(
    p: &mut Progress,
    done: u64,
    at: &Moment,
    v: &mut Vec<TaskState>,
    r: Option<String>,
)
    requires
        at.valid(),
        call_ensures(Progress::set, (p, done, at, v), r),
    ensures
        ({
            let s = old(p)@;
            let t = final(p)@;
            let pct = scaled_ratio(done as nat, s.total, 100) as nat;
            &&& t.done == done && t.total == s.total && t.label == s.label && t.tty == s.tty
                && t.enabled == s.enabled && t.finished == s.finished && t.task == s.task
            &&& r is Some ==> s.enabled && t.last_pct == pct && r->Some_0@ == shown(
                (State { done: done as nat, ..s }),
                *at,
            )
            &&& r is None ==> t.last_pct == s.last_pct
            &&& s.enabled && s.tty ==> (r is Some <==> at.since_draw >= 80 * 1000 * 1000)
            &&& s.enabled && !s.tty ==> (r is Some <==> pct / 5 != s.last_pct / 5 || done
                == s.total)
        }),
{
}

/// What is added is added to what is done, and shown in the same way.
pub proof fn law_progress_added(
    p: &mut Progress,
    n: u64,
    at: &Moment,
    v: &mut Vec<TaskState>,
    r: Option<String>,
)
    requires
        at.valid(),
        old(p)@.done + n <= u64::MAX,
        call_ensures(Progress::inc, (p, n, at, v), r),
    ensures
        ({
            let s = State { done: old(p)@.done + n as nat, ..old(p)@ };
            &&& final(p)@.done == old(p)@.done + n
            &&& is_output(r, s, false, *at)
            &&& final(p)@ == drawn(s, false, *at)
            &&& tasks(final(v)@) == listed(tasks(old(v)@), s, None, *at)
        }),
{
}

/// A transfer ends once: then the last line is shown, with a line break behind
/// it, and the task is listed as done. After that nothing changes.
pub proof fn law_progress_finished(
    p: &mut Progress,
    at: &Moment,
    v: &mut Vec<TaskState>,
    r: Option<String>,
)
    requires
        at.valid(),
        call_ensures(Progress::finish, (p, at, v), r),
    ensures
        final(p)@.finished,
        final(p)@.done == old(p)@.done,
        final(p)@.total == old(p)@.total,
        old(p)@.finished ==> r is None && tasks(final(v)@) == tasks(old(v)@) && final(p)@ == old(p)@,
        !old(p)@.finished && old(p)@.enabled ==> r is Some && r->Some_0@ == shown(
            (State { finished: true, ..old(p)@ }),
            *at,
        ) + "\n"@,
        !old(p)@.enabled ==> r is None,
{
}

/// The task of a transfer is listed with what is done and what there is, its
/// speed, and, where it has one, its new status; nothing else of it changes, and
/// no other task does.
pub proof fn law_task_listed(
    v: Seq<Task>,
    s: State,
    status: Option<Seq<char>>,
    at: Moment,
    i: int,
)
    requires
        s.task is Some,
        0 <= i < v.len(),
        v[i].id == s.task->Some_0,
        forall|k: int| 0 <= k < i ==> (#[trigger] v[k]).id != s.task->Some_0,
    ensures
        ({
            let w = listed(v, s, status, at);
            &&& w.len() == v.len()
            &&& forall|k: int| 0 <= k < v.len() && k != i ==> #[trigger] w[k] == v[k]
            &&& w[i].done == s.done && w[i].total == s.total && w[i].speed == listed_speed(
                s.done,
                at.elapsed as nat,
            )
            &&& w[i].status == if status is Some {
                status->Some_0
            } else {
                v[i].status
            }
            &&& w[i].id == v[i].id && w[i].kind == v[i].kind && w[i].name == v[i].name && w[i].key
                == v[i].key && w[i].out == v[i].out && w[i].error == v[i].error && w[i].url
                == v[i].url
        }),
{
    let id = s.task->Some_0;
    lemma_task_at(v, id);
    match task_at(v, id) {
        Some(k) => {
            if k < i {
                assert(v[k].id != id);
            }
            if i < k {
                assert(v[i].id != id);
            }
        },
        None => {
            assert(v[i].id != id);
        },
    }
}

/// A transfer without a task lists nothing; one with a task shows no lines.
pub proof fn law_progress_new(
    label: &str,
    total: u64,
    enabled: bool,
    tty: bool,
    p: Progress,
    id: u64,
    q: Progress,
)
    requires
        call_ensures(Progress::new, (label, total, enabled, tty), p),
        call_ensures(Progress::for_shared, (id,), q),
    ensures
        p@.label == label@ && p@.total == total && p@.done == 0 && p@.enabled == enabled
            && p@.tty == tty && !p@.finished && p@.task is None && p@.last_pct == 0,
        q@.task == Some(id as nat) && !q@.enabled && q@.done == 0 && q@.total == 0
            && !q@.finished,
{
}

/// To set the total changes that, and shows no line.
pub proof fn law_total_set(
    p: &mut Progress,
    total: u64,
    at: &Moment,
    v: &mut Vec<TaskState>,
    r: (),
)
    requires
        at.valid(),
        call_ensures(Progress::set_total, (p, total, at, v), r),
    ensures
        final(p)@ == (State { total: total as nat, ..old(p)@ }),
        tasks(final(v)@) == listed(tasks(old(v)@), final(p)@, None, *at),
{
}

/// What is set is listed, with the status as it was; and nothing is listed for a
/// transfer without a task, or whose task is gone.
pub proof fn law_set_listed(
    p: &mut Progress,
    done: u64,
    at: &Moment,
    v: &mut Vec<TaskState>,
    r: Option<String>,
)
    requires
        at.valid(),
        call_ensures(Progress::set, (p, done, at, v), r),
    ensures
        tasks(final(v)@) == listed(
            tasks(old(v)@),
            (State { done: done as nat, ..old(p)@ }),
            None,
            *at,
        ),
        old(p)@.task is None ==> tasks(final(v)@) == tasks(old(v)@),
        old(p)@.task is Some && (forall|k: int|
            0 <= k < tasks(old(v)@).len() ==> (#[trigger] tasks(old(v)@)[k]).id
                != old(p)@.task->Some_0) ==> tasks(final(v)@) == tasks(old(v)@),
{
    if old(p)@.task is Some {
        lemma_task_at(tasks(old(v)@), old(p)@.task->Some_0);
    }
}

/// A transfer that ends is listed as done.
pub proof fn law_finish_listed(
    p: &mut Progress,
    at: &Moment,
    v: &mut Vec<TaskState>,
    r: Option<String>,
)
    requires
        at.valid(),
        call_ensures(Progress::finish, (p, at, v), r),
        !old(p)@.finished,
    ensures
        tasks(final(v)@) == listed(
            tasks(old(v)@),
            (State { finished: true, ..old(p)@ }),
            Some("done"@),
            *at,
        ),
{
}

} // verus!
