use vstd::prelude::*;
use vstd::string::StringExecFns;

verus! {

/// The scheduling state that the OS reports for a process.
#[derive(Debug, Clone, Copy, PartialEq, Eq, Structural)]
pub enum State {
    Running,
    Sleeping,
    Waiting,
    Zombie,
    Stopped,
    TracingStop,
    Dead,
    Wakekill,
    Waking,
    Parked,
    Idle,
    Locked,
    WaitingForCpu,
    Unknown,
}

/// The name under which a state is shown.
pub open spec fn state_name(s: State) -> Seq<char> {
    match s {
        State::Running => "Running"@,
        State::Sleeping => "Sleeping"@,
        State::Waiting => "Waiting"@,
        State::Zombie => "Zombie"@,
        State::Stopped => "Stopped"@,
        State::TracingStop => "TracingStop"@,
        State::Dead => "Dead"@,
        State::Wakekill => "Wakekill"@,
        State::Waking => "Waking"@,
        State::Parked => "Parked"@,
        State::Idle => "Idle"@,
        State::Locked => "Locked"@,
        State::WaitingForCpu => "WaitingForCpu"@,
        State::Unknown => "Unknown"@,
    }
}

impl Default for State {
    /// Unknown, until the first observation.
    fn default() -> (r: State)
        ensures
            r == State::Unknown,
    {
        State::Unknown
    }
}

impl State {
    /// The state's name, as shown to users.
    pub fn to_string(&self) -> (r: String)
        ensures
            r@ == state_name(*self),
    {
        let s: &str = match self {
            State::Running => "Running",
            State::Sleeping => "Sleeping",
            State::Waiting => "Waiting",
            State::Zombie => "Zombie",
            State::Stopped => "Stopped",
            State::TracingStop => "TracingStop",
            State::Dead => "Dead",
            State::Wakekill => "Wakekill",
            State::Waking => "Waking",
            State::Parked => "Parked",
            State::Idle => "Idle",
            State::Locked => "Locked",
            State::WaitingForCpu => "WaitingForCpu",
            State::Unknown => "Unknown",
        };
        String::from_str(s)
    }
}

/// One managed OS process and what was last observed of it. Cpu and memory samples are
/// kept in hundredths of a percent, the start time in seconds since the Unix epoch.
#[derive(Clone)]
pub struct Process {
    pub name: String,
    pub pid: Option<u32>,
    pub uid: Option<u32>,
    pub gid: Option<u32>,
    pub state: State,
    pub cpu: Option<u32>,
    pub mem: Option<u32>,
    pub up_time: Option<i64>,
    pub command: String,
    pub working_dir: String,
    pub port: Option<u16>,
    pub env: Vec<(String, String)>,
}

impl Process {
    /// A process record with empty texts, no samples and an Unknown state.
    pub fn new() -> (r: Process)
        ensures
            r.name@.len() == 0,
            r.pid.is_none(),
            r.uid.is_none(),
            r.gid.is_none(),
            r.state == State::Unknown,
            r.cpu.is_none(),
            r.mem.is_none(),
            r.up_time.is_none(),
            r.command@.len() == 0,
            r.working_dir@.len() == 0,
            r.port.is_none(),
            r.env@.len() == 0,
    {
        Process {
            name: String::new(),
            pid: None,
            uid: None,
            gid: None,
            state: State::default(),
            cpu: None,
            mem: None,
            up_time: None,
            command: String::new(),
            working_dir: String::new(),
            port: None,
            env: Vec::new(),
        }
    }
}

/// The character of a decimal digit.
pub open spec fn digit_char(d: nat) -> char {
    if d == 0 { '0' } else if d == 1 { '1' } else if d == 2 { '2' } else if d == 3 { '3' }
    else if d == 4 { '4' } else if d == 5 { '5' } else if d == 6 { '6' } else if d == 7 { '7' }
    else if d == 8 { '8' } else { '9' }
}

/// The decimal digits of `n`, most significant first.
pub open spec fn digits(n: nat) -> Seq<char>
    decreases n,
{
    if n < 10 {
        seq![digit_char(n)]
    } else {
        digits(n / 10) + seq![digit_char(n % 10)]
    }
}

/// The decimal text of an integer, with a leading minus sign when negative.
pub open spec fn decimal(v: int) -> Seq<char> {
    if v < 0 {
        seq!['-'] + digits((-v) as nat)
    } else {
        digits(v as nat)
    }
}

fn digit_str(d: u64) -> (r: &'static str)
    requires
        d < 10,
    ensures
        r@ == seq![digit_char(d as nat)],
{
    proof {
        reveal_strlit("0");
        reveal_strlit("1");
        reveal_strlit("2");
        reveal_strlit("3");
        reveal_strlit("4");
        reveal_strlit("5");
        reveal_strlit("6");
        reveal_strlit("7");
        reveal_strlit("8");
        reveal_strlit("9");
    }
    let r = if d == 0 { "0" } else if d == 1 { "1" } else if d == 2 { "2" } else if d == 3 { "3" }
    else if d == 4 { "4" } else if d == 5 { "5" } else if d == 6 { "6" } else if d == 7 { "7" }
    else if d == 8 { "8" } else { "9" };
    assert(r@ =~= seq![digit_char(d as nat)]);
    r
}

fn append_digits(s: &mut String, n: u64)
    ensures
        final(s)@ == old(s)@ + digits(n as nat),
    decreases n,
{
    if n >= 10 {
        append_digits(s, n / 10);
    }
    s.append(digit_str(n % 10));
    assert(final(s)@ =~= old(s)@ + digits(n as nat)) by {
        if n >= 10 {
            assert(digits(n as nat) == digits((n / 10) as nat) + seq![digit_char((n % 10) as nat)]);
        }
    }
}

fn append_decimal(s: &mut String, v: i64)
    ensures
        final(s)@ == old(s)@ + decimal(v as int),
{
    if v < 0 {
        proof {
            reveal_strlit("-");
        }
        s.append("-");
        let m: u64 = if v == i64::MIN { 9223372036854775808u64 } else { (-v) as u64 };
        append_digits(s, m);
        assert(final(s)@ =~= old(s)@ + decimal(v as int));
    } else {
        append_digits(s, v as u64);
    }
}

/// Shows an optional number, or `?` when it is missing.
pub fn display_option(value: &Option<u32>) -> (r: String)
    ensures
        r@ == match value {
            Some(v) => digits(*v as nat),
            None => "?"@,
        },
{
    match value {
        Some(v) => {
            let mut s = String::new();
            append_digits(&mut s, *v as u64);
            assert(s@ =~= digits(*v as nat));
            s
        },
        None => String::from_str("?"),
    }
}

/// How long ago a start lies, given the elapsed seconds, in the largest whole unit that fits.
pub open spec fn duration_text(secs: int) -> Seq<char> {
    if secs < 60 {
        decimal(secs) + " seconds ago"@
    } else if secs < 3600 {
        decimal(secs / 60) + if secs / 60 == 1 { " minute ago"@ } else { " minutes ago"@ }
    } else if secs < 86400 {
        decimal(secs / 3600) + if secs / 3600 == 1 { " hour ago"@ } else { " hours ago"@ }
    } else {
        decimal(secs / 86400) + if secs / 86400 == 1 { " day ago"@ } else { " days ago"@ }
    }
}

/// Formats an elapsed time of `seconds` seconds, as `5 minutes ago` or `1 day ago`.
pub fn format_duration(seconds: i64) -> (r: String)
    ensures
        r@ == duration_text(seconds as int),
{
    let mut s = String::new();
    if seconds < 60 {
        append_decimal(&mut s, seconds);
        s.append(" seconds ago");
    } else if seconds < 3600 {
        let m = seconds / 60;
        append_decimal(&mut s, m);
        s.append(if m == 1 { " minute ago" } else { " minutes ago" });
    } else if seconds < 86400 {
        let h = seconds / 3600;
        append_decimal(&mut s, h);
        s.append(if h == 1 { " hour ago" } else { " hours ago" });
    } else {
        let d = seconds / 86400;
        append_decimal(&mut s, d);
        s.append(if d == 1 { " day ago" } else { " days ago" });
    }
    assert(s@ =~= duration_text(seconds as int));
    s
}

/// The elapsed seconds from `start` to `now`, held within the range of `i64`.
pub open spec fn elapsed(start: i64, now: i64) -> int {
    let e = now - start;
    if e > i64::MAX { i64::MAX as int } else if e < i64::MIN { i64::MIN as int } else { e }
}

/// Shows how long a process has been up at time `now`, or `Stopped` when it has no start time.
pub fn display_up_time(value: &Option<i64>, now: i64) -> (r: String)
    ensures
        r@ == match value {
            Some(v) => "Up "@ + duration_text(elapsed(*v, now)),
            None => "Stopped"@,
        },
{
    match value {
        Some(v) => {
            let e: i128 = now as i128 - *v as i128;
            let secs: i64 = if e > i64::MAX as i128 {
                i64::MAX
            } else if e < i64::MIN as i128 {
                i64::MIN
            } else {
                e as i64
            };
            let text = format_duration(secs);
            let mut s = String::from_str("Up ");
            s.append(text.as_str());
            s
        },
        None => String::from_str("Stopped"),
    }
}

} // verus!
