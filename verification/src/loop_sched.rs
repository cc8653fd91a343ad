//! Recurring prompts ("loop jobs"): interval parsing, the job registry, and the decisions
//! of the `loop_*` tools and of each job's timer.
use crate::json::{json_field_text, string_field};
use crate::mcp::ToolSpec;
use crate::clock::unix_nanos;
use crate::text::{
    ascii_lower, ascii_lower_char, chars_of, concat, decimal, is_ascii_text, join_lines, first_chars, hex8, hex_fixed, lowercase, str_eq,
    take_chars, to_lowercase,
    trim, trimmed, u64_to_decimal, is_white_space, lemma_trimmed_unchanged,
};
use vstd::prelude::*;

verus! {

/// A prompt that a loop job injects into the conversation when its timer fires.
#[derive(Clone, Debug)]
pub struct LoopPromptEvent {
    pub job_id: String,
    pub prompt: String,
    pub schedule: String,
}

/// `char::is_ascii_digit`.
pub open spec fn is_ascii_digit(c: char) -> bool {
    '0' <= c <= '9'
}

/// Value of a run of ASCII digits.
pub open spec fn digits_value(d: Seq<char>) -> int
    decreases d.len(),
{
    if d.len() == 0 {
        0
    } else {
        digits_value(d.drop_last()) * 10 + (d.last() as int - 48)
    }
}

/// `str::parse::<u64>` on a run of ASCII digits: fails on the empty run and on overflow.
pub open spec fn parse_digits(d: Seq<char>) -> Option<u64> {
    if d.len() == 0 || digits_value(d) > u64::MAX {
        None
    } else {
        Some(digits_value(d) as u64)
    }
}

/// Seconds per unit letter of an interval.
pub open spec fn unit_seconds(c: char) -> Option<u64> {
    if c == 'h' {
        Some(3600)
    } else if c == 'm' {
        Some(60)
    } else if c == 's' {
        Some(1)
    } else {
        None
    }
}

/// `u64` addition as the release build computes it (wrapping).
pub open spec fn wrap_add(a: u64, b: u64) -> u64 {
    ((a as int + b as int) % 0x1_0000_0000_0000_0000) as u64
}

/// `u64` multiplication as the release build computes it (wrapping).
pub open spec fn wrap_mul(a: u64, b: u64) -> u64 {
    ((a as int * b as int) % 0x1_0000_0000_0000_0000) as u64
}

/// Left-to-right scan of an interval text: the running total and the pending digits, or
/// `None` once a number fails to parse or a letter is not a unit.
pub open spec fn interval_scan(s: Seq<char>) -> Option<(u64, Seq<char>)>
    decreases s.len(),
{
    if s.len() == 0 {
        Some((0u64, Seq::<char>::empty()))
    } else {
        match interval_scan(s.drop_last()) {
            None => None,
            Some((total, num)) => {
                let c = s.last();
                if is_ascii_digit(c) {
                    Some((total, num.push(c)))
                } else {
                    match parse_digits(num) {
                        None => None,
                        Some(n) => match unit_seconds(c) {
                            None => None,
                            Some(m) => Some((wrap_add(total, wrap_mul(n, m)), Seq::<char>::empty())),
                        },
                    }
                }
            },
        }
    }
}

/// Seconds denoted by an already trimmed, lower-cased interval text: a bare trailing number
/// counts as seconds; a total of zero is no interval.
pub open spec fn interval_of(s: Seq<char>) -> Option<u64> {
    match interval_scan(s) {
        None => None,
        Some((total, num)) => {
            let t = if num.len() == 0 {
                Some(total)
            } else {
                match parse_digits(num) {
                    None => None,
                    Some(n) => Some(wrap_add(total, n)),
                }
            };
            match t {
                Some(x) => if x == 0 {
                    None
                } else {
                    Some(x)
                },
                None => None,
            }
        },
    }
}

/// Seconds denoted by a schedule such as "30s", "5m", "1h", "2h30m" or "1h15m30s".
pub open spec fn interval_seconds(s: Seq<char>) -> Option<u64> {
    interval_of(lowercase(trimmed(s)))
}

/// Seconds denoted by an ASCII schedule, where lower-casing lowers `A`-`Z` only.
pub open spec fn ascii_interval_seconds(s: Seq<char>) -> Option<u64> {
    interval_of(ascii_lower(trimmed(s)))
}

/// Parses duration strings like "30s", "5m", "1h", "2h30m", "1h15m30s"; a bare number
/// counts as seconds. Sums wrap around as in the release build.
pub fn parse_interval(s: &str) -> (r: Option<u64>)
    ensures
        r == interval_seconds(s@),
        is_ascii_text(s@) ==> r == ascii_interval_seconds(s@),
{
    let t = trim(s);
    proof {
        if is_ascii_text(s@) {
            crate::text::lemma_trimmed_ascii(s@);
        }
    }
    let low = to_lowercase(t.as_str());
    let v = chars_of(low.as_str());
    let mut total: u64 = 0;
    let mut num_len: usize = 0;
    let mut num_val: u64 = 0;
    let mut num_over = false;
    let mut i: usize = 0;
    let ghost mut num: Seq<char> = Seq::empty();
    proof {
        assert(v@.take(0) =~= Seq::<char>::empty());
    }
    while i < v.len()
        invariant
            i <= v.len(),
            v@ == lowercase(trimmed(s@)),
            is_ascii_text(s@) ==> v@ == ascii_lower(trimmed(s@)),
            interval_scan(v@.take(i as int)) == Some((total, num)),
            num_len == num.len(),
            num_len <= i,
            num_over == (digits_value(num) > u64::MAX),
            !num_over ==> num_val == digits_value(num),
            forall|k: int| 0 <= k < num.len() ==> is_ascii_digit(#[trigger] num[k]),
        decreases v.len() - i,
    {
        let c = v[i];
        proof {
            assert(v@.take(i + 1).drop_last() =~= v@.take(i as int));
            assert(v@.take(i + 1).last() == c);
        }
        if '0' <= c && c <= '9' {
            let d = (c as u32 - 48) as u64;
            proof {
                lemma_digits_nonneg(num);
                assert(digits_value(num.push(c)) == digits_value(num) * 10 + d) by {
                    assert(num.push(c).drop_last() =~= num);
                }
            }
            if !num_over {
                if num_val > (u64::MAX - d) / 10 {
                    num_over = true;
                } else {
                    num_val = num_val * 10 + d;
                }
            }
            num_len = num_len + 1;
            proof {
                num = num.push(c);
            }
        } else {
            if num_len == 0 || num_over {
                proof {
                    lemma_scan_stays_failed(v@, i + 1);
                }
                return None;
            }
            let m: u64 = if c == 'h' {
                3600
            } else if c == 'm' {
                60
            } else if c == 's' {
                1
            } else {
                proof {
                    lemma_scan_stays_failed(v@, i + 1);
                }
                return None;
            };
            total = total.wrapping_add(num_val.wrapping_mul(m));
            num_len = 0;
            num_val = 0;
            num_over = false;
            proof {
                num = Seq::empty();
            }
        }
        i = i + 1;
    }
    proof {
        assert(v@.take(v.len() as int) =~= v@);
    }
    let t2 = if num_len == 0 {
        total
    } else if num_over {
        return None;
    } else {
        total.wrapping_add(num_val)
    };
    if t2 == 0 {
        None
    } else {
        Some(t2)
    }
}

/// Once the scan of a prefix fails, the scan of the whole text fails.
proof fn lemma_scan_stays_failed(s: Seq<char>, i: int)
    requires
        0 <= i <= s.len(),
        interval_scan(s.take(i)) is None,
    ensures
        interval_scan(s) is None,
    decreases s.len() - i,
{
    if i < s.len() {
        assert(s.take(i + 1).drop_last() =~= s.take(i));
        lemma_scan_stays_failed(s, i + 1);
    } else {
        assert(s.take(i) =~= s);
    }
}

/// Digit runs have non-negative values.
proof fn lemma_digits_nonneg(d: Seq<char>)
    requires
        forall|k: int| 0 <= k < d.len() ==> is_ascii_digit(#[trigger] d[k]),
    ensures
        digits_value(d) >= 0,
    decreases d.len(),
{
    if d.len() > 0 {
        assert(d.last() == d[d.len() - 1]);
        lemma_digits_nonneg(d.drop_last());
    }
}


/// Wrapping `u64` addition is associative.
proof fn lemma_wrap_add_assoc(x: u64, t: u64, v: u64)
    ensures
        wrap_add(wrap_add(x, t), v) == wrap_add(x, wrap_add(t, v)),
        wrap_add(x, 0) == x,
{
    let m: int = 0x1_0000_0000_0000_0000;
    vstd::arithmetic::div_mod::lemma_add_mod_noop_right(x as int, t + v, m);
    vstd::arithmetic::div_mod::lemma_add_mod_noop(x + t, v as int, m);
    vstd::arithmetic::div_mod::lemma_small_mod(v as nat, m as nat);
    vstd::arithmetic::div_mod::lemma_small_mod(x as nat, m as nat);
    assert(wrap_add(x, t) as int == (x + t) % m);
    assert(wrap_add(t, v) as int == (t + v) % m);
    assert((x + t + v) == x + (t + v));
}

/// The result of scanning a text that follows a complete prefix whose total is `x`.
pub open spec fn scan_after(x: u64, scan: Option<(u64, Seq<char>)>) -> Option<(u64, Seq<char>)> {
    match scan {
        None => None,
        Some((t, num)) => Some((wrap_add(x, t), num)),
    }
}

/// Scanning a text after a prefix that ended with a unit letter carries the prefix's
/// total into every later sum.
proof fn lemma_scan_append(a: Seq<char>, b: Seq<char>, x: u64)
    requires
        interval_scan(a) == Some((x, Seq::<char>::empty())),
    ensures
        interval_scan(a + b) == scan_after(x, interval_scan(b)),
    decreases b.len(),
{
    if b.len() == 0 {
        assert(a + b =~= a);
        lemma_wrap_add_assoc(x, 0, 0);
    } else {
        let b0 = b.drop_last();
        assert((a + b).drop_last() =~= a + b0);
        assert((a + b).last() == b.last());
        lemma_scan_append(a, b0, x);
        match interval_scan(b0) {
            None => {},
            Some((t, num)) => {
                let c = b.last();
                if !is_ascii_digit(c) {
                    match parse_digits(num) {
                        None => {},
                        Some(n) => match unit_seconds(c) {
                            None => {},
                            Some(m) => {
                                lemma_wrap_add_assoc(x, t, wrap_mul(n, m));
                            },
                        },
                    }
                }
            },
        }
    }
}

/// A schedule never denotes zero seconds.
pub proof fn lemma_interval_never_zero(s: Seq<char>)
    ensures
        interval_of(s) != Some(0u64),
        interval_seconds(s) != Some(0u64),
{
}

/// Interval texts add up: when `a` ends with a unit letter, the text `a` followed by `b`
/// denotes the sum of what `a` and `b` denote (where that sum fits in a `u64`).
pub proof fn lemma_interval_concat(a: Seq<char>, b: Seq<char>, x: u64, y: u64)
    requires
        a.len() > 0,
        unit_seconds(a.last()) is Some,
        interval_of(a) == Some(x),
        interval_of(b) == Some(y),
        x + y <= u64::MAX,
    ensures
        interval_of(a + b) == Some((x + y) as u64),
{
    let a0 = a.drop_last();
    assert(a0.push(a.last()) =~= a);
    assert(interval_scan(a) == Some((x, Seq::<char>::empty())));
    lemma_scan_append(a, b, x);
    let (t, num) = interval_scan(b)->0;
    let m: int = 0x1_0000_0000_0000_0000;
    if num.len() == 0 {
        assert(t == y);
    } else {
        let k = parse_digits(num)->0;
        lemma_wrap_add_assoc(x, t, k);
        assert(wrap_add(t, k) == y);
    }
    vstd::arithmetic::div_mod::lemma_small_mod((x + y) as nat, m as nat);
    assert(wrap_add(x, y) == (x + y) as u64);
}

/// Schedules add up: for ASCII schedules with no whitespace at their ends, where the first
/// ends with a unit letter (`h`, `m` or `s`, in either case), the schedule `a` followed by
/// `b` denotes the sum of what `a` and `b` denote (where that sum fits in a `u64`).
pub proof fn lemma_schedule_concat(a: Seq<char>, b: Seq<char>, x: u64, y: u64)
    requires
        is_ascii_text(a),
        is_ascii_text(b),
        a.len() > 0,
        b.len() > 0,
        !is_white_space(a[0]),
        !is_white_space(b[0]),
        !is_white_space(b.last()),
        unit_seconds(ascii_lower_char(a.last())) is Some,
        ascii_interval_seconds(a) == Some(x),
        ascii_interval_seconds(b) == Some(y),
        x + y <= u64::MAX,
    ensures
        is_ascii_text(a + b),
        ascii_interval_seconds(a + b) == Some((x + y) as u64),
{
    let c = a.last();
    assert(!is_white_space(c)) by {
        assert(c == 'h' || c == 'm' || c == 's' || c == 'H' || c == 'M' || c == 'S');
    }
    lemma_trimmed_unchanged(a);
    lemma_trimmed_unchanged(b);
    assert((a + b)[0] == a[0]);
    assert((a + b).last() == b.last());
    lemma_trimmed_unchanged(a + b);
    assert(ascii_lower(a + b) =~= ascii_lower(a) + ascii_lower(b));
    assert(ascii_lower(a).last() == ascii_lower_char(c));
    lemma_interval_concat(ascii_lower(a), ascii_lower(b), x, y);
    assert forall|i: int| 0 <= i < (a + b).len() implies (((#[trigger] (a + b)[i]) as u32) < 0x80) by {
        if i < a.len() {
            assert((a + b)[i] == a[i]);
        } else {
            assert((a + b)[i] == b[i - a.len()]);
        }
    }
}

/// The hash that turns a clock reading into a job id seed.
pub open spec fn mix_bits(n: u64) -> u32 {
    vstd::wrapping::u64_specs::wrapping_mul(n ^ (n >> 17u64) ^ (n >> 33u64), 0x9E3779B97F4A7C15u64) as u32
}

/// Mixes the bits of a nanosecond clock reading (truncated to 64 bits) into a `u32`.
pub fn mix_nanos(nanos: u128) -> (r: u32)
    ensures
        r == mix_bits(nanos as u64),
{
    let n = nanos as u64;
    ((n ^ (n >> 17) ^ (n >> 33)).wrapping_mul(0x9E3779B97F4A7C15)) as u32
}

/// A pseudo-random `u32` from the wall clock (used for job ids).
pub fn rand_u32() -> (r: u32)
    ensures
        exists|n: u64| r == mix_bits(n),
{
    let nanos = unix_nanos();
    mix_nanos(nanos)
}

/// A registered loop job.
#[derive(Debug)]
pub struct LoopJob {
    pub id: String,
    pub schedule: String,
    pub prompt: String,
    pub interval_secs: u64,
    pub run_count: u64,
    pub skip_count: u64,
    pub paused: bool,
}

impl LoopJob {
    /// A field-by-field copy.
    pub fn duplicate(&self) -> (r: LoopJob)
        ensures
            r == *self,
    {
        LoopJob {
            id: self.id.clone(),
            schedule: self.schedule.clone(),
            prompt: self.prompt.clone(),
            interval_secs: self.interval_secs,
            run_count: self.run_count,
            skip_count: self.skip_count,
            paused: self.paused,
        }
    }
}

/// Position of the job with the given id.
pub open spec fn job_position(jobs: Seq<LoopJob>, id: Seq<char>) -> Option<int>
    decreases jobs.len(),
{
    if jobs.len() == 0 {
        None
    } else if jobs.last().id@ == id {
        Some(jobs.len() - 1)
    } else {
        job_position(jobs.drop_last(), id)
    }
}

/// No two jobs share an id.
pub open spec fn ids_distinct(jobs: Seq<LoopJob>) -> bool {
    forall|i: int, j: int| 0 <= i < j < jobs.len() ==> jobs[i].id@ != jobs[j].id@
}

/// `job_position` finds exactly the job that carries the id.
pub proof fn lemma_job_position(jobs: Seq<LoopJob>, id: Seq<char>)
    ensures
        job_position(jobs, id) matches Some(k) ==> 0 <= k < jobs.len() && jobs[k].id@ == id,
        job_position(jobs, id) is None ==> forall|k: int|
            0 <= k < jobs.len() ==> #[trigger] jobs[k].id@ != id,
    decreases jobs.len(),
{
    if jobs.len() > 0 && jobs.last().id@ != id {
        lemma_job_position(jobs.drop_last(), id);
        assert forall|k: int| 0 <= k < jobs.len() && job_position(jobs, id) is None implies #[trigger] jobs[k].id@ != id by {
            if k < jobs.len() - 1 {
                assert(jobs[k] == jobs.drop_last()[k]);
            }
        }
    }
}

/// The jobs that are registered, in creation order. Ids are unique.
/// A `Vec` with distinct ids rather than a map keyed by id: the ids are `String`s, and with a
/// `String` key the contracts that Verus gives `HashMap` let nothing about lookups be proved.
pub struct JobRegistry {
    jobs: Vec<LoopJob>,
}

/// What the timer of a loop job does when it wakes up.
#[derive(Debug)]
pub enum TickOutcome {
    /// The job is paused or gone: nothing happens.
    Idle,
    /// The agent is busy: the run is skipped and counted.
    Skipped,
    /// The prompt is injected and the run is counted.
    Fire(LoopPromptEvent),
}

/// Reply of a `loop_*` tool, with the timer to start or stop.
#[derive(Debug)]
pub struct LoopToolOutcome {
    pub text: String,
    /// A job that was created: its timer is to be started.
    pub started: Option<LoopJob>,
    /// Id of a job that was removed: its timer is to be cancelled.
    pub stopped: Option<String>,
}

/// Status word of a job in the listing.
pub open spec fn status_word(paused: bool) -> Seq<char> {
    if paused {
        "paused"@
    } else {
        "active"@
    }
}

/// One line of the job listing.
pub open spec fn job_line(j: LoopJob) -> Seq<char> {
    "- "@ + j.id@ + " | every "@ + j.schedule@ + " | runs:"@ + decimal(j.run_count as nat)
        + " skips:"@ + decimal(j.skip_count as nat) + " | "@ + status_word(j.paused) + " | \""@
        + take_chars(j.prompt@, 60) + "\""@
}

/// The listing the `loop_list` tool replies with.
pub open spec fn job_listing(jobs: Seq<LoopJob>) -> Seq<char> {
    if jobs.len() == 0 {
        "No active loop jobs."@
    } else {
        join_lines(jobs.map_values(|j: LoopJob| job_line(j)))
    }
}

/// The registry after registering `job`: it replaces a job with the same id, else it is
/// appended.
pub open spec fn with_job(jobs: Seq<LoopJob>, job: LoopJob) -> Seq<LoopJob> {
    match job_position(jobs, job.id@) {
        Some(k) => jobs.update(k, job),
        None => jobs.push(job),
    }
}

impl JobRegistry {
    #[verifier::type_invariant]
    spec fn inv(self) -> bool {
        ids_distinct(self.jobs@)
    }

    /// The registered jobs, in creation order.
    pub closed spec fn jobs(&self) -> Seq<LoopJob> {
        self.jobs@
    }

    /// An empty registry.
    pub fn new() -> (r: JobRegistry)
        ensures
            r.jobs() == Seq::<LoopJob>::empty(),
            ids_distinct(r.jobs()),
    {
        JobRegistry { jobs: Vec::new() }
    }

    /// Number of registered jobs.
    pub fn len(&self) -> (n: usize)
        ensures
            n == self.jobs().len(),
    {
        self.jobs.len()
    }

    /// Position of the job with the given id.
    pub fn position(&self, id: &str) -> (r: Option<usize>)
        ensures
            r matches Some(k) ==> job_position(self.jobs(), id@) == Some(k as int),
            r is None ==> job_position(self.jobs(), id@) is None,
    {
        let mut k = self.jobs.len();
        proof {
            assert(self.jobs@.take(k as int) =~= self.jobs@);
        }
        while k > 0
            invariant
                k <= self.jobs@.len(),
                job_position(self.jobs@, id@) == job_position(self.jobs@.take(k as int), id@),
            decreases k,
        {
            proof {
                assert(self.jobs@.take(k as int).drop_last() =~= self.jobs@.take(k - 1));
            }
            if str_eq(self.jobs[k - 1].id.as_str(), id) {
                return Some(k - 1);
            }
            k = k - 1;
        }
        proof {
            assert(self.jobs@.take(0) =~= Seq::<LoopJob>::empty());
        }
        None
    }

    /// Copy of the job with the given id.
    pub fn get(&self, id: &str) -> (r: Option<LoopJob>)
        ensures
            match job_position(self.jobs(), id@) {
                Some(k) => r == Some(self.jobs()[k]),
                None => r is None,
            },
    {
        proof {
            lemma_job_position(self.jobs@, id@);
        }
        match self.position(id) {
            Some(k) => Some(self.jobs[k].duplicate()),
            None => None,
        }
    }

    /// Registers a job (`HashMap::insert`): a job with the same id is replaced.
    pub fn insert(&mut self, job: LoopJob)
        ensures
            final(self).jobs() == with_job(old(self).jobs(), job),
            ids_distinct(final(self).jobs()),
    {
        proof {
            use_type_invariant(&*self);
            lemma_job_position(self.jobs@, job.id@);
        }
        let pos = self.position(job.id.as_str());
        match pos {
            Some(k) => {
                let ghost before = self.jobs@;
                let mut jobs: Vec<LoopJob> = Vec::new();
                std::mem::swap(&mut jobs, &mut self.jobs);
                jobs.set(k, job);
                self.jobs = jobs;
                proof {
                    assert forall|i: int, j: int| 0 <= i < j < self.jobs@.len() implies self.jobs@[i].id@
                        != self.jobs@[j].id@ by {
                        if i != k && j != k {
                            assert(self.jobs@[i] == before[i] && self.jobs@[j] == before[j]);
                        }
                    }
                }
            },
            None => {
                let ghost before = self.jobs@;
                let mut jobs: Vec<LoopJob> = Vec::new();
                std::mem::swap(&mut jobs, &mut self.jobs);
                jobs.push(job);
                self.jobs = jobs;
                proof {
                    assert forall|i: int, j: int| 0 <= i < j < self.jobs@.len() implies self.jobs@[i].id@
                        != self.jobs@[j].id@ by {
                        if j < before.len() {
                            assert(self.jobs@[i] == before[i] && self.jobs@[j] == before[j]);
                        } else {
                            assert(self.jobs@[i] == before[i]);
                        }
                    }
                }
            },
        }
    }

    /// Unregisters the job with the given id and returns it.
    pub fn remove(&mut self, id: &str) -> (r: Option<LoopJob>)
        ensures
            match job_position(old(self).jobs(), id@) {
                Some(k) => r == Some(old(self).jobs()[k]) && final(self).jobs() == old(
                    self,
                ).jobs().remove(k),
                None => r is None && final(self).jobs() == old(self).jobs(),
            },
            ids_distinct(final(self).jobs()),
    {
        proof {
            use_type_invariant(&*self);
            lemma_job_position(self.jobs@, id@);
        }
        match self.position(id) {
            Some(k) => {
                let ghost before = self.jobs@;
                let mut jobs: Vec<LoopJob> = Vec::new();
                std::mem::swap(&mut jobs, &mut self.jobs);
                let job = jobs.remove(k);
                self.jobs = jobs;
                proof {
                    assert forall|i: int, j: int| 0 <= i < j < self.jobs@.len() implies self.jobs@[i].id@
                        != self.jobs@[j].id@ by {
                        let bi = if i < k { i } else { i + 1 };
                        let bj = if j < k { j } else { j + 1 };
                        assert(self.jobs@[i] == before[bi] && self.jobs@[j] == before[bj]);
                    }
                }
                Some(job)
            },
            None => None,
        }
    }

    /// Sets the paused flag of the job with the given id; false when there is none.
    pub fn set_paused(&mut self, id: &str, paused: bool) -> (found: bool)
        ensures
            match job_position(old(self).jobs(), id@) {
                Some(k) => found && final(self).jobs() == old(self).jobs().update(
                    k,
                    LoopJob { paused, ..old(self).jobs()[k] },
                ),
                None => !found && final(self).jobs() == old(self).jobs(),
            },
            ids_distinct(final(self).jobs()),
    {
        proof {
            use_type_invariant(&*self);
            lemma_job_position(self.jobs@, id@);
        }
        match self.position(id) {
            Some(k) => {
                let mut job = self.jobs[k].duplicate();
                job.paused = paused;
                let ghost before = self.jobs@;
                let mut jobs: Vec<LoopJob> = Vec::new();
                std::mem::swap(&mut jobs, &mut self.jobs);
                jobs.set(k, job);
                self.jobs = jobs;
                proof {
                    assert forall|i: int, j: int| 0 <= i < j < self.jobs@.len() implies self.jobs@[i].id@
                        != self.jobs@[j].id@ by {
                        if i != k && j != k {
                            assert(self.jobs@[i] == before[i] && self.jobs@[j] == before[j]);
                        }
                    }
                }
                true
            },
            None => false,
        }
    }
}


/// Reply of `loop_remove` for a job that was removed.
pub open spec fn removed_text(id: Seq<char>) -> Seq<char> {
    "Removed loop job "@ + id
}

/// Reply of `loop_remove`, `loop_pause` and `loop_resume` for an unknown id.
pub open spec fn not_found_text(id: Seq<char>) -> Seq<char> {
    "Job not found: "@ + id
}

/// Reply of `loop_pause` (paused) or `loop_resume` for a known id.
pub open spec fn pause_text(id: Seq<char>, paused: bool) -> Seq<char> {
    if paused {
        "Paused loop job "@ + id
    } else {
        "Resumed loop job "@ + id
    }
}

/// Reply to a tool name that is no loop tool.
pub open spec fn unknown_tool_text(name: Seq<char>) -> Seq<char> {
    "Unknown loop tool: "@ + name
}

/// Reply of `loop_create` for a job that was created.
pub open spec fn created_text(id: Seq<char>, schedule: Seq<char>, prompt: Seq<char>) -> Seq<char> {
    "Loop created: id="@ + id + ", schedule=every "@ + schedule + ", prompt=\""@ + prompt + "\""@
}

/// Interval of the job that `loop_create` creates, `None` when it refuses.
pub open spec fn created_interval(schedule: Seq<char>, prompt: Seq<char>) -> Option<u64> {
    if schedule.len() == 0 || prompt.len() == 0 {
        None
    } else {
        match interval_seconds(schedule) {
            Some(secs) => if secs >= 5 {
                Some(secs)
            } else {
                None
            },
            None => None,
        }
    }
}

/// Reply of `loop_create` when it refuses.
pub open spec fn create_error_text(schedule: Seq<char>, prompt: Seq<char>) -> Seq<char> {
    if schedule.len() == 0 || prompt.len() == 0 {
        "Error: schedule and prompt are required"@
    } else {
        match interval_seconds(schedule) {
            Some(_) => "Error: minimum interval is 5s"@,
            None => "Error: cannot parse schedule '"@ + schedule
                + "'. Use formats like '30s', '5m', '1h', '2h30m'"@,
        }
    }
}

/// A job as `loop_create` registers it.
pub open spec fn fresh_job(
    j: LoopJob,
    id: Seq<char>,
    schedule: Seq<char>,
    prompt: Seq<char>,
    secs: u64,
) -> bool {
    &&& j.id@ == id
    &&& j.schedule@ == schedule
    &&& j.prompt@ == prompt
    &&& j.interval_secs == secs
    &&& j.run_count == 0
    &&& j.skip_count == 0
    &&& !j.paused
}

/// What `loop_create` does: registers a job whose id is the eight hex digits of `seed`, or
/// refuses and leaves the registry as it was.
pub open spec fn create_outcome(
    before: Seq<LoopJob>,
    after: Seq<LoopJob>,
    schedule: Seq<char>,
    prompt: Seq<char>,
    seed: u32,
    out: LoopToolOutcome,
) -> bool {
    &&& out.stopped is None
    &&& match created_interval(schedule, prompt) {
        Some(secs) => {
            &&& out.started matches Some(j)
            &&& fresh_job(j, hex_fixed(seed as nat, 8), schedule, prompt, secs)
            &&& out.text@ == created_text(j.id@, schedule, prompt)
            &&& after == with_job(before, j)
        },
        None => {
            &&& out.started is None
            &&& out.text@ == create_error_text(schedule, prompt)
            &&& after == before
        },
    }
}

/// What `loop_remove` does.
pub open spec fn remove_outcome(
    before: Seq<LoopJob>,
    after: Seq<LoopJob>,
    id: Seq<char>,
    out: LoopToolOutcome,
) -> bool {
    &&& out.started is None
    &&& match job_position(before, id) {
        Some(k) => {
            &&& out.stopped matches Some(s) && s@ == id
            &&& out.text@ == removed_text(id)
            &&& after == before.remove(k)
        },
        None => {
            &&& out.stopped is None
            &&& out.text@ == not_found_text(id)
            &&& after == before
        },
    }
}

/// What `loop_pause` (`paused`) and `loop_resume` (`!paused`) do.
pub open spec fn pause_outcome(
    before: Seq<LoopJob>,
    after: Seq<LoopJob>,
    id: Seq<char>,
    paused: bool,
    out: LoopToolOutcome,
) -> bool {
    &&& out.started is None
    &&& out.stopped is None
    &&& match job_position(before, id) {
        Some(k) => {
            &&& out.text@ == pause_text(id, paused)
            &&& after == before.update(k, LoopJob { paused, ..before[k] })
        },
        None => {
            &&& out.text@ == not_found_text(id)
            &&& after == before
        },
    }
}

/// A string argument of a tool call, empty when missing (`args[key].as_str().unwrap_or("")`).
pub open spec fn arg_or_empty(args: Seq<char>, key: Seq<char>) -> Seq<char> {
    match json_field_text(args, key) {
        Some(s) => s,
        None => Seq::empty(),
    }
}

/// What a `loop_*` tool call named `name` with JSON arguments `args` does.
pub open spec fn tool_outcome(
    before: Seq<LoopJob>,
    after: Seq<LoopJob>,
    name: Seq<char>,
    args: Seq<char>,
    seed: u32,
    out: LoopToolOutcome,
) -> bool {
    if name == "loop_create"@ {
        create_outcome(
            before,
            after,
            arg_or_empty(args, "schedule"@),
            arg_or_empty(args, "prompt"@),
            seed,
            out,
        )
    } else if name == "loop_list"@ {
        out.text@ == job_listing(before) && after == before && out.started is None
            && out.stopped is None
    } else if name == "loop_remove"@ {
        remove_outcome(before, after, arg_or_empty(args, "job_id"@), out)
    } else if name == "loop_pause"@ {
        pause_outcome(before, after, arg_or_empty(args, "job_id"@), true, out)
    } else if name == "loop_resume"@ {
        pause_outcome(before, after, arg_or_empty(args, "job_id"@), false, out)
    } else {
        out.text@ == unknown_tool_text(name) && after == before && out.started is None
            && out.stopped is None
    }
}

/// The string argument `key` of a tool call, empty when missing.
fn arg_text(args: &str, key: &str) -> (r: String)
    ensures
        r@ == arg_or_empty(args@, key@),
{
    match string_field(args, key) {
        Some(s) => s,
        None => String::new(),
    }
}

/// A reply that starts and stops no timer.
fn reply(text: String) -> (r: LoopToolOutcome)
    ensures
        r.text == text,
        r.started is None,
        r.stopped is None,
{
    LoopToolOutcome { text, started: None, stopped: None }
}

/// What a timer wake-up of job `id` does: nothing when the job is paused or gone; when
/// the agent is busy, a skipped run is counted; else the job's prompt is injected and a run
/// is counted.
pub open spec fn tick_outcome(
    before: Seq<LoopJob>,
    after: Seq<LoopJob>,
    id: Seq<char>,
    busy: bool,
    r: TickOutcome,
) -> bool {
    match job_position(before, id) {
        None => r is Idle && after == before,
        Some(k) => {
            let j = before[k];
            if j.paused {
                r is Idle && after == before
            } else if busy {
                r is Skipped && after == before.update(
                    k,
                    LoopJob { skip_count: wrap_add(j.skip_count, 1), ..j },
                )
            } else {
                &&& r matches TickOutcome::Fire(e)
                &&& e.job_id@ == j.id@
                &&& e.prompt@ == j.prompt@
                &&& e.schedule@ == j.schedule@
                &&& after == before.update(k, LoopJob { run_count: wrap_add(j.run_count, 1), ..j })
            }
        },
    }
}

/// Replacing a job by one with the same id leaves every id where it was.
pub proof fn lemma_position_after_update(jobs: Seq<LoopJob>, k: int, j: LoopJob, id: Seq<char>)
    requires
        0 <= k < jobs.len(),
        j.id@ == jobs[k].id@,
    ensures
        job_position(jobs.update(k, j), id) == job_position(jobs, id),
    decreases jobs.len(),
{
    let up = jobs.update(k, j);
    if k == jobs.len() - 1 {
        assert(up.drop_last() =~= jobs.drop_last());
    } else {
        assert(up.drop_last() =~= jobs.drop_last().update(k, j));
        lemma_position_after_update(jobs.drop_last(), k, j, id);
    }
}

/// A paused job stays registered and does not fire: after `loop_pause` on a registered job,
/// whatever the agent is doing, its timer leaves the registry as it is and injects nothing.
pub proof fn lemma_paused_job_stays_silent(
    before: Seq<LoopJob>,
    paused: Seq<LoopJob>,
    id: Seq<char>,
    out: LoopToolOutcome,
    busy: bool,
    after: Seq<LoopJob>,
    r: TickOutcome,
)
    requires
        job_position(before, id) is Some,
        pause_outcome(before, paused, id, true, out),
        tick_outcome(paused, after, id, busy, r),
    ensures
        paused.len() == before.len(),
        r is Idle,
        after == paused,
{
    let k = job_position(before, id)->0;
    lemma_job_position(before, id);
    lemma_position_after_update(before, k, LoopJob { paused: true, ..before[k] }, id);
}

/// Resuming undoes pausing: `loop_pause` then `loop_resume` on an active registered job
/// gives back the registry it started from.
pub proof fn lemma_pause_resume(
    before: Seq<LoopJob>,
    mid: Seq<LoopJob>,
    after: Seq<LoopJob>,
    id: Seq<char>,
    out1: LoopToolOutcome,
    out2: LoopToolOutcome,
)
    requires
        job_position(before, id) matches Some(k) && !before[k].paused,
        pause_outcome(before, mid, id, true, out1),
        pause_outcome(mid, after, id, false, out2),
    ensures
        after == before,
{
    let k = job_position(before, id)->0;
    lemma_job_position(before, id);
    lemma_position_after_update(before, k, LoopJob { paused: true, ..before[k] }, id);
    assert(after =~= before);
}

/// Removing a created job undoes its creation: when `loop_create` registers a job under a
/// fresh id, `loop_remove` with that id gives back the registry it started from and stops
/// that job's timer.
pub proof fn lemma_create_remove(
    before: Seq<LoopJob>,
    mid: Seq<LoopJob>,
    after: Seq<LoopJob>,
    schedule: Seq<char>,
    prompt: Seq<char>,
    seed: u32,
    out1: LoopToolOutcome,
    out2: LoopToolOutcome,
)
    requires
        job_position(before, hex_fixed(seed as nat, 8)) is None,
        created_interval(schedule, prompt) is Some,
        create_outcome(before, mid, schedule, prompt, seed, out1),
        remove_outcome(mid, after, hex_fixed(seed as nat, 8), out2),
    ensures
        after == before,
        out2.stopped matches Some(s) && s@ == hex_fixed(seed as nat, 8),
{
    let j = out1.started->0;
    assert(mid == before.push(j));
    assert(mid.drop_last() =~= before);
    assert(job_position(mid, j.id@) == Some(before.len() as int));
    assert(mid.remove(before.len() as int) =~= before);
}

impl JobRegistry {
    /// What the timer of job `id` does when it wakes up: nothing when the job is paused or
    /// gone; when the agent is busy, count a skipped run; else inject the prompt and count a
    /// run. Counters wrap as in the release build.
    pub fn tick(&mut self, id: &str, busy: bool) -> (r: TickOutcome)
        ensures
            ids_distinct(final(self).jobs()),
            tick_outcome(old(self).jobs(), final(self).jobs(), id@, busy, r),
    {
        proof {
            use_type_invariant(&*self);
            lemma_job_position(self.jobs@, id@);
        }
        let k = match self.position(id) {
            Some(k) => k,
            None => return TickOutcome::Idle,
        };
        if self.jobs[k].paused {
            return TickOutcome::Idle;
        }
        let mut job = self.jobs[k].duplicate();
        let outcome = if busy {
            job.skip_count = job.skip_count.wrapping_add(1);
            TickOutcome::Skipped
        } else {
            job.run_count = job.run_count.wrapping_add(1);
            TickOutcome::Fire(
                LoopPromptEvent {
                    job_id: job.id.clone(),
                    prompt: job.prompt.clone(),
                    schedule: job.schedule.clone(),
                },
            )
        };
        let ghost before = self.jobs@;
        let mut jobs: Vec<LoopJob> = Vec::new();
        std::mem::swap(&mut jobs, &mut self.jobs);
        jobs.set(k, job);
        self.jobs = jobs;
        proof {
            assert forall|i: int, j: int| 0 <= i < j < self.jobs@.len() implies self.jobs@[i].id@
                != self.jobs@[j].id@ by {
                if i != k && j != k {
                    assert(self.jobs@[i] == before[i] && self.jobs@[j] == before[j]);
                }
            }
        }
        outcome
    }

    /// The `loop_list` reply: one line per job, or a note that there is none.
    pub fn list_jobs(&self) -> (r: String)
        ensures
            r@ == job_listing(self.jobs()),
    {
        if self.jobs.len() == 0 {
            return "No active loop jobs.".to_string();
        }
        let ghost lines = self.jobs@.map_values(|j: LoopJob| job_line(j));
        let mut out = job_line_text(&self.jobs[0]);
        let mut i: usize = 1;
        proof {
            assert(lines.take(1) =~= seq![lines[0]]);
        }
        while i < self.jobs.len()
            invariant
                1 <= i <= self.jobs@.len(),
                lines == self.jobs@.map_values(|j: LoopJob| job_line(j)),
                out@ == join_lines(lines.take(i as int)),
            decreases self.jobs.len() - i,
        {
            let line = job_line_text(&self.jobs[i]);
            proof {
                assert(lines.take(i + 1).drop_last() =~= lines.take(i as int));
                assert(lines.take(i + 1).last() == line@);
            }
            out.append("\n");
            out.append(line.as_str());
            i = i + 1;
        }
        proof {
            assert(lines.take(self.jobs.len() as int) =~= lines);
        }
        out
    }

    /// `loop_create`: validates the schedule and prompt and registers a job whose id is
    /// `seed` in eight hex digits.
    pub fn create_job(&mut self, schedule: &str, prompt: &str, seed: u32) -> (r: LoopToolOutcome)
        ensures
            create_outcome(old(self).jobs(), final(self).jobs(), schedule@, prompt@, seed, r),
            ids_distinct(final(self).jobs()),
    {
        proof {
            use_type_invariant(&*self);
        }
        let s_chars = chars_of(schedule);
        let p_chars = chars_of(prompt);
        if s_chars.len() == 0 || p_chars.len() == 0 {
            return reply("Error: schedule and prompt are required".to_string());
        }
        let secs = match parse_interval(schedule) {
            Some(s) => {
                if s >= 5 {
                    s
                } else {
                    return reply("Error: minimum interval is 5s".to_string());
                }
            },
            None => {
                let t = concat("Error: cannot parse schedule '", schedule);
                let t = concat(t.as_str(), "'. Use formats like '30s', '5m', '1h', '2h30m'");
                return reply(t);
            },
        };
        let id = hex8(seed);
        let job = LoopJob {
            id: id.clone(),
            schedule: schedule.to_string(),
            prompt: prompt.to_string(),
            interval_secs: secs,
            run_count: 0,
            skip_count: 0,
            paused: false,
        };
        let started = job.duplicate();
        self.insert(job);
        let mut text = concat("Loop created: id=", id.as_str());
        text.append(", schedule=every ");
        text.append(schedule);
        text.append(", prompt=\"");
        text.append(prompt);
        text.append("\"");
        LoopToolOutcome { text, started: Some(started), stopped: None }
    }

    /// `loop_remove`: unregisters the job; its timer is to be cancelled.
    pub fn remove_job(&mut self, id: &str) -> (r: LoopToolOutcome)
        ensures
            remove_outcome(old(self).jobs(), final(self).jobs(), id@, r),
            ids_distinct(final(self).jobs()),
    {
        match self.remove(id) {
            Some(_) => LoopToolOutcome {
                text: concat("Removed loop job ", id),
                started: None,
                stopped: Some(id.to_string()),
            },
            None => reply(concat("Job not found: ", id)),
        }
    }

    /// `loop_pause`: the job stays registered but does not fire.
    pub fn pause_job(&mut self, id: &str) -> (r: LoopToolOutcome)
        ensures
            pause_outcome(old(self).jobs(), final(self).jobs(), id@, true, r),
            ids_distinct(final(self).jobs()),
    {
        self.set_pause_state(id, true)
    }

    /// `loop_resume`: the job fires again.
    pub fn resume_job(&mut self, id: &str) -> (r: LoopToolOutcome)
        ensures
            pause_outcome(old(self).jobs(), final(self).jobs(), id@, false, r),
            ids_distinct(final(self).jobs()),
    {
        self.set_pause_state(id, false)
    }

    /// Pauses (`paused`) or resumes a job and words the reply.
    fn set_pause_state(&mut self, id: &str, paused: bool) -> (r: LoopToolOutcome)
        ensures
            pause_outcome(old(self).jobs(), final(self).jobs(), id@, paused, r),
            ids_distinct(final(self).jobs()),
    {
        if self.set_paused(id, paused) {
            if paused {
                reply(concat("Paused loop job ", id))
            } else {
                reply(concat("Resumed loop job ", id))
            }
        } else {
            reply(concat("Job not found: ", id))
        }
    }

    /// Handles a `loop_*` tool call; a created job gets the id `seed` in eight hex digits.
    pub fn handle_tool_call_with_seed(&mut self, name: &str, args_str: &str, seed: u32) -> (r:
        LoopToolOutcome)
        ensures
            tool_outcome(old(self).jobs(), final(self).jobs(), name@, args_str@, seed, r),
            ids_distinct(final(self).jobs()),
    {
        proof {
            use_type_invariant(&*self);
        }
        if str_eq(name, "loop_create") {
            let schedule = arg_text(args_str, "schedule");
            let prompt = arg_text(args_str, "prompt");
            self.create_job(schedule.as_str(), prompt.as_str(), seed)
        } else if str_eq(name, "loop_list") {
            reply(self.list_jobs())
        } else if str_eq(name, "loop_remove") {
            let id = arg_text(args_str, "job_id");
            self.remove_job(id.as_str())
        } else if str_eq(name, "loop_pause") {
            let id = arg_text(args_str, "job_id");
            self.pause_job(id.as_str())
        } else if str_eq(name, "loop_resume") {
            let id = arg_text(args_str, "job_id");
            self.resume_job(id.as_str())
        } else {
            reply(concat("Unknown loop tool: ", name))
        }
    }

    /// Handles a `loop_*` tool call; a created job gets a clock-derived id.
    pub fn handle_tool_call(&mut self, name: &str, args_str: &str) -> (r: LoopToolOutcome)
        ensures
            exists|seed: u32| tool_outcome(old(self).jobs(), final(self).jobs(), name@, args_str@, seed, r),
            ids_distinct(final(self).jobs()),
    {
        let seed = rand_u32();
        self.handle_tool_call_with_seed(name, args_str, seed)
    }
}

/// One line of the job listing.
fn job_line_text(j: &LoopJob) -> (r: String)
    ensures
        r@ == job_line(*j),
{
    let mut r = concat("- ", j.id.as_str());
    r.append(" | every ");
    r.append(j.schedule.as_str());
    r.append(" | runs:");
    r.append(u64_to_decimal(j.run_count).as_str());
    r.append(" skips:");
    r.append(u64_to_decimal(j.skip_count).as_str());
    r.append(" | ");
    r.append(if j.paused {
        "paused"
    } else {
        "active"
    });
    r.append(" | \"");
    r.append(first_chars(j.prompt.as_str(), 60).as_str());
    r.append("\"");
    r
}

/// The built-in loop tools the agent can discover; parameters are JSON schemas as text.
pub fn tool_definitions() -> (r: Vec<ToolSpec>)
    ensures
        r@.len() == 5,
        r@[0].name@ == "loop_create"@,
        r@[0].description@ == "Create a recurring scheduled task. The prompt will be injected into the conversation at the specified interval. Schedule format: '30s', '5m', '1h', '2h30m'. The task runs in the current session and stops when 0claw exits."@,
        r@[0].parameters@ == "{\"type\":\"object\",\"properties\":{\"schedule\":{\"type\":\"string\",\"description\":\"Interval like '30s', '5m', '1h', '2h30m'\"},\"prompt\":{\"type\":\"string\",\"description\":\"The prompt to execute on each iteration\"}},\"required\":[\"schedule\",\"prompt\"]}"@,
        r@[1].name@ == "loop_list"@,
        r@[1].description@ == "List all active loop jobs with their ID, schedule, prompt, run count, and status."@,
        r@[1].parameters@ == "{\"type\":\"object\",\"properties\":{}}"@,
        r@[2].name@ == "loop_remove"@,
        r@[2].description@ == "Remove and stop a loop job by its ID."@,
        r@[2].parameters@ == "{\"type\":\"object\",\"properties\":{\"job_id\":{\"type\":\"string\",\"description\":\"The job ID to remove\"}},\"required\":[\"job_id\"]}"@,
        r@[3].name@ == "loop_pause"@,
        r@[3].description@ == "Pause a loop job. It stays registered but won't fire until resumed."@,
        r@[3].parameters@ == "{\"type\":\"object\",\"properties\":{\"job_id\":{\"type\":\"string\",\"description\":\"The job ID to pause\"}},\"required\":[\"job_id\"]}"@,
        r@[4].name@ == "loop_resume"@,
        r@[4].description@ == "Resume a paused loop job."@,
        r@[4].parameters@ == "{\"type\":\"object\",\"properties\":{\"job_id\":{\"type\":\"string\",\"description\":\"The job ID to resume\"}},\"required\":[\"job_id\"]}"@,
{
    let mut v: Vec<ToolSpec> = Vec::new();
    v.push(
        ToolSpec {
            name: "loop_create".to_string(),
            description: "Create a recurring scheduled task. The prompt will be injected into the conversation at the specified interval. Schedule format: '30s', '5m', '1h', '2h30m'. The task runs in the current session and stops when 0claw exits.".to_string(),
            parameters: "{\"type\":\"object\",\"properties\":{\"schedule\":{\"type\":\"string\",\"description\":\"Interval like '30s', '5m', '1h', '2h30m'\"},\"prompt\":{\"type\":\"string\",\"description\":\"The prompt to execute on each iteration\"}},\"required\":[\"schedule\",\"prompt\"]}".to_string(),
        },
    );
    v.push(
        ToolSpec {
            name: "loop_list".to_string(),
            description: "List all active loop jobs with their ID, schedule, prompt, run count, and status.".to_string(),
            parameters: "{\"type\":\"object\",\"properties\":{}}".to_string(),
        },
    );
    v.push(
        ToolSpec {
            name: "loop_remove".to_string(),
            description: "Remove and stop a loop job by its ID.".to_string(),
            parameters: "{\"type\":\"object\",\"properties\":{\"job_id\":{\"type\":\"string\",\"description\":\"The job ID to remove\"}},\"required\":[\"job_id\"]}".to_string(),
        },
    );
    v.push(
        ToolSpec {
            name: "loop_pause".to_string(),
            description: "Pause a loop job. It stays registered but won't fire until resumed.".to_string(),
            parameters: "{\"type\":\"object\",\"properties\":{\"job_id\":{\"type\":\"string\",\"description\":\"The job ID to pause\"}},\"required\":[\"job_id\"]}".to_string(),
        },
    );
    v.push(
        ToolSpec {
            name: "loop_resume".to_string(),
            description: "Resume a paused loop job.".to_string(),
            parameters: "{\"type\":\"object\",\"properties\":{\"job_id\":{\"type\":\"string\",\"description\":\"The job ID to resume\"}},\"required\":[\"job_id\"]}".to_string(),
        },
    );
    v
}

/// How many of the flags are `b`.
pub open spec fn count_flags(flags: Seq<bool>, b: bool) -> nat
    decreases flags.len(),
{
    if flags.len() == 0 {
        0
    } else {
        count_flags(flags.drop_last(), b) + if flags.last() == b {
            1nat
        } else {
            0nat
        }
    }
}

/// A job that a tick leaves as it was but for its counters.
pub open spec fn same_job(a: LoopJob, b: LoopJob) -> bool {
    &&& a.id == b.id
    &&& a.schedule == b.schedule
    &&& a.prompt == b.prompt
    &&& a.interval_secs == b.interval_secs
    &&& a.paused == b.paused
}

/// What the first `i` ticks of job `id` (at position `p`) leave: the registry has the same
/// jobs in the same places, the job changed at most in its counters, and an active job has
/// counted every run and every skip (wrapping as in the release build).
pub open spec fn ticked(regs: Seq<Seq<LoopJob>>, busy: Seq<bool>, p: int, i: int, id: Seq<char>) -> bool {
    let first = regs[0];
    let j0 = first[p];
    &&& regs[i].len() == first.len()
    &&& job_position(regs[i], id) == Some(p)
    &&& forall|q: int| 0 <= q < first.len() && q != p ==> #[trigger] regs[i][q] == first[q]
    &&& same_job(regs[i][p], j0)
    &&& j0.paused ==> regs[i] == first
    &&& !j0.paused ==> regs[i][p].run_count as int == (j0.run_count + count_flags(busy.take(i), false))
        % 0x1_0000_0000_0000_0000
    &&& !j0.paused ==> regs[i][p].skip_count as int == (j0.skip_count + count_flags(busy.take(i), true))
        % 0x1_0000_0000_0000_0000
}

proof fn lemma_count_step(c: u64, n: nat, total: int)
    requires
        c as int == (total + n) % 0x1_0000_0000_0000_0000,
        total >= 0,
    ensures
        wrap_add(c, 1) as int == (total + n + 1) % 0x1_0000_0000_0000_0000,
{
    let m: int = 0x1_0000_0000_0000_0000;
    vstd::arithmetic::div_mod::lemma_add_mod_noop(total + n, 1, m);
    vstd::arithmetic::div_mod::lemma_small_mod(1, m as nat);
}

proof fn lemma_job_ticks_prefix(
    regs: Seq<Seq<LoopJob>>,
    id: Seq<char>,
    busy: Seq<bool>,
    outs: Seq<TickOutcome>,
    p: int,
    i: int,
)
    requires
        regs.len() == busy.len() + 1,
        outs.len() == busy.len(),
        job_position(regs[0], id) == Some(p),
        forall|k: int| 0 <= k < busy.len() ==> tick_outcome(regs[k], #[trigger] regs[k + 1], id, busy[k], outs[k]),
        0 <= i <= busy.len(),
    ensures
        ticked(regs, busy, p, i, id),
    decreases i,
{
    lemma_job_position(regs[0], id);
    let m: int = 0x1_0000_0000_0000_0000;
    let j0 = regs[0][p];
    if i == 0 {
        assert(busy.take(0) =~= Seq::<bool>::empty());
        vstd::arithmetic::div_mod::lemma_small_mod(j0.run_count as nat, m as nat);
        vstd::arithmetic::div_mod::lemma_small_mod(j0.skip_count as nat, m as nat);
    } else {
        let k = i - 1;
        lemma_job_ticks_prefix(regs, id, busy, outs, p, k);
        assert(tick_outcome(regs[k], regs[k + 1], id, busy[k], outs[k]));
        lemma_job_position(regs[k], id);
        let j = regs[k][p];
        assert(busy.take(i).drop_last() =~= busy.take(k));
        assert(busy.take(i).last() == busy[k]);
        if !j.paused {
            let up = if busy[k] {
                LoopJob { skip_count: wrap_add(j.skip_count, 1), ..j }
            } else {
                LoopJob { run_count: wrap_add(j.run_count, 1), ..j }
            };
            assert(regs[i] == regs[k].update(p, up));
            lemma_position_after_update(regs[k], p, up, id);
            if busy[k] {
                lemma_count_step(j.skip_count, count_flags(busy.take(k), true), j0.skip_count as int);
            } else {
                lemma_count_step(j.run_count, count_flags(busy.take(k), false), j0.run_count as int);
            }
        }
    }
}

/// The ticks of a registered job: each wake-up leaves every other job, the job's id,
/// schedule, prompt and interval as they were; a paused job never fires and nothing
/// changes; an active job fires exactly on the ticks where the agent is idle, each time
/// with its own id, prompt and schedule, skips exactly on the others, and its counters
/// count both (wrapping as in the release build).
pub proof fn lemma_job_ticks(regs: Seq<Seq<LoopJob>>, id: Seq<char>, busy: Seq<bool>, outs: Seq<TickOutcome>)
    requires
        regs.len() == busy.len() + 1,
        outs.len() == busy.len(),
        job_position(regs[0], id) is Some,
        forall|k: int| 0 <= k < busy.len() ==> tick_outcome(regs[k], #[trigger] regs[k + 1], id, busy[k], outs[k]),
    ensures
        forall|i: int| 0 <= i < regs.len() ==> #[trigger] ticked(regs, busy, job_position(regs[0], id)->0, i, id),
        forall|k: int|
            0 <= k < outs.len() ==> {
                let j0 = regs[0][job_position(regs[0], id)->0];
                &&& j0.paused ==> #[trigger] outs[k] is Idle
                &&& !j0.paused && busy[k] ==> outs[k] is Skipped
                &&& !j0.paused && !busy[k] ==> (outs[k] matches TickOutcome::Fire(e) && e.job_id@
                    == id && e.prompt@ == j0.prompt@ && e.schedule@ == j0.schedule@)
            },
{
    let p = job_position(regs[0], id)->0;
    lemma_job_position(regs[0], id);
    assert forall|i: int| 0 <= i < regs.len() implies #[trigger] ticked(regs, busy, p, i, id) by {
        lemma_job_ticks_prefix(regs, id, busy, outs, p, i);
    }
    assert forall|k: int| 0 <= k < outs.len() implies {
        let j0 = regs[0][p];
        &&& j0.paused ==> #[trigger] outs[k] is Idle
        &&& !j0.paused && busy[k] ==> outs[k] is Skipped
        &&& !j0.paused && !busy[k] ==> (outs[k] matches TickOutcome::Fire(e) && e.job_id@ == id
            && e.prompt@ == j0.prompt@ && e.schedule@ == j0.schedule@)
    } by {
        lemma_job_ticks_prefix(regs, id, busy, outs, p, k);
        assert(tick_outcome(regs[k], regs[k + 1], id, busy[k], outs[k]));
        lemma_job_position(regs[k], id);
    }
}

/// Once a job is removed, its timer's wake-ups change nothing: whatever the agent is doing,
/// every later tick of that id leaves the registry as removal left it and injects nothing.
pub proof fn lemma_removed_job_ticks(
    before: Seq<LoopJob>,
    out: LoopToolOutcome,
    regs: Seq<Seq<LoopJob>>,
    id: Seq<char>,
    busy: Seq<bool>,
    outs: Seq<TickOutcome>,
)
    requires
        ids_distinct(before),
        regs.len() == busy.len() + 1,
        outs.len() == busy.len(),
        remove_outcome(before, regs[0], id, out),
        forall|k: int| 0 <= k < busy.len() ==> tick_outcome(regs[k], #[trigger] regs[k + 1], id, busy[k], outs[k]),
    ensures
        job_position(regs[0], id) is None,
        forall|i: int| 0 <= i < regs.len() ==> #[trigger] regs[i] == regs[0],
        forall|k: int| 0 <= k < outs.len() ==> #[trigger] outs[k] is Idle,
{
    let removed = regs[0];
    lemma_job_position(before, id);
    if let Some(k) = job_position(before, id) {
        assert forall|i: int| 0 <= i < removed.len() implies #[trigger] removed[i].id@ != id by {
            if i < k {
                assert(removed[i] == before[i]);
            } else {
                assert(removed[i] == before[i + 1]);
            }
        }
    }
    lemma_job_position(removed, id);
    assert forall|i: int| 0 <= i < regs.len() implies #[trigger] regs[i] == regs[0] by {
        lemma_removed_prefix(regs, id, busy, outs, i);
    }
    assert forall|k: int| 0 <= k < outs.len() implies #[trigger] outs[k] is Idle by {
        lemma_removed_prefix(regs, id, busy, outs, k);
        assert(tick_outcome(regs[k], regs[k + 1], id, busy[k], outs[k]));
    }
}

proof fn lemma_removed_prefix(
    regs: Seq<Seq<LoopJob>>,
    id: Seq<char>,
    busy: Seq<bool>,
    outs: Seq<TickOutcome>,
    i: int,
)
    requires
        regs.len() == busy.len() + 1,
        outs.len() == busy.len(),
        job_position(regs[0], id) is None,
        forall|k: int| 0 <= k < busy.len() ==> tick_outcome(regs[k], #[trigger] regs[k + 1], id, busy[k], outs[k]),
        0 <= i < regs.len(),
    ensures
        regs[i] == regs[0],
    decreases i,
{
    if i > 0 {
        let k = i - 1;
        lemma_removed_prefix(regs, id, busy, outs, k);
        assert(tick_outcome(regs[k], regs[k + 1], id, busy[k], outs[k]));
    }
}

} // verus!
