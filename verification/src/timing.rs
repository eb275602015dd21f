//! Opt-in, bounded timing capture of breathing writes. Samples are kept in
//! memory and written out only after the capture ends. Instants are
//! nanoseconds of one monotonic clock.
use vstd::prelude::*;

verus! {

/// A capture keeps at most this many samples.
pub const MAX_SAMPLES: usize = 100_000;

/// One timed operation: what it was, on which light, when it started
/// (after the capture began) and how long it took.
#[derive(Debug, Clone)]
pub struct Sample {
    pub kind: String,
    pub light: Option<usize>,
    pub at_nanos: u64,
    pub duration_nanos: u64,
    pub ok: bool,
}

/// A running capture: when it began, when it ends, and its samples.
#[derive(Debug)]
pub struct Capture {
    pub started: u64,
    pub deadline: u64,
    pub samples: Vec<Sample>,
}

impl Capture {
    /// Whether the capture stopped keeping samples because it was full.
    pub fn sample_limit_reached(&self) -> (b: bool)
        ensures
            b == (self.samples@.len() == MAX_SAMPLES),
    {
        self.samples.len() == MAX_SAMPLES
    }
}

/// Captures last between 5 and 300 seconds.
pub fn check_trace_seconds(seconds: u32) -> (r: Result<(), String>)
    ensures
        match r {
            Ok(()) => 5 <= seconds <= 300,
            Err(m) => !(5 <= seconds <= 300) && m@
                == "trace duration must be between 5 and 300 seconds"@,
        },
{
    if !(5 <= seconds && seconds <= 300) {
        return Err("trace duration must be between 5 and 300 seconds".to_string());
    }
    Ok(())
}

/// Starts a capture of `seconds` at `started`. Only one capture runs at a time.
pub fn start_capture(slot: &mut Option<Capture>, started: u64, seconds: u32) -> (r: Result<
    (),
    String,
>)
    requires
        started + 300_000_000_000 <= u64::MAX,
    ensures
        !(5 <= seconds <= 300) ==> *final(slot) == *old(slot) && (r matches Err(m) && m@
            == "trace duration must be between 5 and 300 seconds"@),
        5 <= seconds <= 300 && *old(slot) is Some ==> *final(slot) == *old(slot) && (r matches Err(
            m,
        ) && m@ == "a breathing timing capture is already running"@),
        5 <= seconds <= 300 && *old(slot) is None ==> r is Ok && (*final(slot) matches Some(c)
            && c.started == started && c.deadline == started + seconds * 1_000_000_000
            && c.samples@.len() == 0),
{
    check_trace_seconds(seconds)?;
    if slot.is_some() {
        return Err("a breathing timing capture is already running".to_string());
    }
    let seconds64: u64 = seconds as u64;
    *slot = Some(
        Capture { started, deadline: started + seconds64 * 1_000_000_000, samples: Vec::new() },
    );
    Ok(())
}

/// The sample of an operation from `started` to `finished` in capture `c`.
pub open spec fn sample_of(
    c: Capture,
    kind: String,
    started: u64,
    finished: u64,
    light: Option<usize>,
    ok: bool,
) -> Sample {
    Sample {
        kind,
        light,
        at_nanos: (started - c.started) as u64,
        duration_nanos: if finished >= started {
            (finished - started) as u64
        } else {
            0
        },
        ok,
    }
}

/// Whether capture `c` keeps an operation from `started` to `finished`:
/// it lies wholly inside the capture window and there is room left.
pub open spec fn keeps(c: Capture, started: u64, finished: u64) -> bool {
    started >= c.started && finished <= c.deadline && c.samples@.len() < MAX_SAMPLES
}

/// Records one timed operation in the running capture, if any.
pub fn record(
    slot: &mut Option<Capture>,
    kind: String,
    started: u64,
    finished: u64,
    light: Option<usize>,
    ok: bool,
)
    ensures
        match *old(slot) {
            Some(c) => if keeps(c, started, finished) {
                *final(slot) matches Some(n) && n.started == c.started && n.deadline == c.deadline
                    && n.samples@ == c.samples@.push(
                    sample_of(c, kind, started, finished, light, ok),
                )
            } else {
                *final(slot) == *old(slot)
            },
            None => *final(slot) == *old(slot),
        },
{
    match slot {
        Some(c) => {
            if started >= c.started && finished <= c.deadline && c.samples.len() < MAX_SAMPLES {
                let duration_nanos = if finished >= started {
                    finished - started
                } else {
                    0
                };
                c.samples.push(
                    Sample { kind, light, at_nanos: started - c.started, duration_nanos, ok },
                );
            }
        },
        None => {},
    }
}

/// Ends the capture begun at `session`, dropping its samples; a newer
/// capture is left alone.
pub fn end_session(slot: &mut Option<Capture>, session: u64)
    ensures
        (*old(slot) matches Some(c) && c.started == session) ==> *final(slot) is None,
        !(*old(slot) matches Some(c) && c.started == session) ==> *final(slot) == *old(slot),
{
    let ours = match slot {
        Some(c) => c.started == session,
        None => false,
    };
    if ours {
        *slot = None;
    }
}

/// The name of the file a finished capture is written to.
pub fn trace_file_name(timestamp: &str) -> (n: String)
    ensures
        n@ == "breathing-timing-"@ + timestamp@ + ".json"@,
{
    let mut v = crate::text::chars_of("breathing-timing-");
    crate::text::push_str(&mut v, timestamp);
    crate::text::push_str(&mut v, ".json");
    crate::text::string_of(&v)
}

} // verus!
