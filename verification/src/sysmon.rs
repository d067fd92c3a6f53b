//! The system monitors of the benchmark suite: what they read out of the
//! text that the system's tools print.
use vstd::prelude::*;
use crate::text::{
    begins_with, chars_of, colon_field, decimal, decimal_text, lines, second_field, split_lines,
    split_words, starts_with, string_from_chars, trim, trim_chars, words,
};

verus! {

/// The resident set size field of a `/proc/<pid>/status` text: the second
/// word of the first line that starts with `VmRSS:` and has two words.
pub open spec fn vmrss_field(ls: Seq<Seq<char>>) -> Option<Seq<char>>
    decreases ls.len(),
{
    if ls.len() == 0 {
        None
    } else if starts_with(ls[0], "VmRSS:"@) && words(ls[0]).len() >= 2 {
        Some(words(ls[0])[1])
    } else {
        vmrss_field(ls.drop_first())
    }
}

/// The CPU field of `top` output for the process `pid_text`: the ninth word
/// of the first line, after the seven header lines, that has at least nine
/// words and starts with the process id.
pub open spec fn top_field(ls: Seq<Seq<char>>, pid_text: Seq<char>) -> Option<Seq<char>>
    decreases ls.len(),
{
    if ls.len() == 0 {
        None
    } else if words(ls[0]).len() >= 9 && words(ls[0])[0] == pid_text {
        Some(words(ls[0])[8])
    } else {
        top_field(ls.drop_first(), pid_text)
    }
}

/// The lines after the first seven.
pub open spec fn after_header(ls: Seq<Seq<char>>) -> Seq<Seq<char>> {
    if ls.len() >= 7 {
        ls.skip(7)
    } else {
        Seq::empty()
    }
}

/// The first line that starts with `model name`.
pub open spec fn model_line(ls: Seq<Seq<char>>) -> Option<Seq<char>>
    decreases ls.len(),
{
    if ls.len() == 0 {
        None
    } else if starts_with(ls[0], "model name"@) {
        Some(ls[0])
    } else {
        model_line(ls.drop_first())
    }
}

/// The processor model of a `/proc/cpuinfo` text: the part after the colon
/// of its first `model name` line, trimmed (`Unknown` when that line has no
/// colon), or `Unknown CPU` when there is no such line.
pub open spec fn cpu_model_text(cpuinfo: Seq<char>) -> Seq<char> {
    match model_line(lines(cpuinfo)) {
        None => "Unknown CPU"@,
        Some(l) => trim(
            match second_field(l) {
                Some(f) => f,
                None => "Unknown"@,
            },
        ),
    }
}

/// The resident set size field of the lines `ls` (see `vmrss_field`).
fn find_vmrss(ls: &Vec<Vec<char>>) -> (field: Option<Vec<char>>)
    ensures
        field matches Some(f) ==> vmrss_field(ls@.map_values(|l: Vec<char>| l@)) == Some(f@),
        field is None ==> vmrss_field(ls@.map_values(|l: Vec<char>| l@)) is None,
{
    let ghost all = ls@.map_values(|l: Vec<char>| l@);
    let mut i: usize = 0;
    proof {
        assert(all.skip(0) == all);
    }
    while i < ls.len()
        invariant
            all == ls@.map_values(|l: Vec<char>| l@),
            i <= ls@.len(),
            vmrss_field(all) == vmrss_field(all.skip(i as int)),
        decreases ls@.len() - i,
    {
        let line = &ls[i];
        proof {
            assert(all.skip(i as int)[0] == line@);
            assert(all.skip(i as int).drop_first() == all.skip(i + 1));
        }
        if begins_with(line, "VmRSS:") {
            let parts = split_words(line);
            if parts.len() >= 2 {
                proof {
                    assert(parts@.map_values(|w: Vec<char>| w@)[1] == parts@[1]@);
                }
                return Some(parts[1].clone());
            }
        }
        i = i + 1;
    }
    None
}

/// Whether `a` and `b` hold the same characters.
fn same_chars(a: &Vec<char>, b: &Vec<char>) -> (same: bool)
    ensures
        same == (a@ == b@),
{
    if a.len() != b.len() {
        return false;
    }
    let mut i: usize = 0;
    while i < a.len()
        invariant
            a@.len() == b@.len(),
            i <= a@.len(),
            forall|k: int| 0 <= k < i ==> a@[k] == b@[k],
        decreases a@.len() - i,
    {
        if a[i] != b[i] {
            return false;
        }
        i = i + 1;
    }
    proof {
        assert(a@ =~= b@);
    }
    true
}

/// Reads the memory of a process out of `/proc/<pid>/status`.
pub struct MemoryMonitor {
    pid: u32,
}

impl MemoryMonitor {
    /// The process watched.
    pub closed spec fn process(&self) -> u32 {
        self.pid
    }

    /// A monitor of process `pid`.
    pub fn new(pid: u32) -> (m: Self)
        ensures
            m.process() == pid,
    {
        MemoryMonitor { pid }
    }

    /// The process watched.
    pub fn pid(&self) -> (pid: u32)
        ensures
            pid == self.process(),
    {
        self.pid
    }

    /// The resident set size field (in kB) of a status text.
    pub fn resident_field(status: &str) -> (field: Option<String>)
        ensures
            field matches Some(f) ==> vmrss_field(lines(status@)) == Some(f@),
            field is None ==> vmrss_field(lines(status@)) is None,
    {
        let chars = chars_of(status);
        let ls = split_lines(&chars);
        match find_vmrss(&ls) {
            Some(f) => Some(string_from_chars(f.as_slice())),
            None => None,
        }
    }
}

/// Reads the CPU usage of a process out of `top` output.
pub struct CPUMonitor {
    pid: u32,
}

impl CPUMonitor {
    /// The process watched.
    pub closed spec fn process(&self) -> u32 {
        self.pid
    }

    /// A monitor of process `pid`.
    pub fn new(pid: u32) -> (m: Self)
        ensures
            m.process() == pid,
    {
        CPUMonitor { pid }
    }

    /// The process watched.
    pub fn pid(&self) -> (pid: u32)
        ensures
            pid == self.process(),
    {
        self.pid
    }

    /// The CPU usage field (in percent) of the watched process in `top`
    /// output.
    pub fn usage_field(&self, top_output: &str) -> (field: Option<String>)
        ensures
            field matches Some(f) ==> top_field(
                after_header(lines(top_output@)),
                decimal(self.process() as nat),
            ) == Some(f@),
            field is None ==> top_field(after_header(lines(top_output@)), decimal(self.process() as nat))
                is None,
    {
        let pid_text = chars_of(decimal_text(self.pid as u64).as_str());
        let chars = chars_of(top_output);
        let ls = split_lines(&chars);
        let ghost all = ls@.map_values(|l: Vec<char>| l@);
        let ghost body = after_header(all);
        if ls.len() < 7 {
            proof {
                assert(body.len() == 0);
            }
            return None;
        }
        let mut i: usize = 7;
        proof {
            assert(body.skip(0) == body);
            assert(body == all.skip(7));
        }
        while i < ls.len()
            invariant
                all == ls@.map_values(|l: Vec<char>| l@),
                all == lines(top_output@),
                pid_text@ == decimal(self.process() as nat),
                body == all.skip(7),
                7 <= i <= ls@.len(),
                top_field(body, pid_text@) == top_field(all.skip(i as int), pid_text@),
            decreases ls@.len() - i,
        {
            let line = &ls[i];
            proof {
                assert(all.skip(i as int)[0] == line@);
                assert(all.skip(i as int).drop_first() == all.skip(i + 1));
            }
            let parts = split_words(line);
            if parts.len() >= 9 && same_chars(&parts[0], &pid_text) {
                proof {
                    assert(parts@.map_values(|w: Vec<char>| w@)[0] == parts@[0]@);
                    assert(parts@.map_values(|w: Vec<char>| w@)[8] == parts@[8]@);
                    assert(top_field(all.skip(i as int), pid_text@) == Some(parts@[8]@));
                    assert(pid_text@ == decimal(self.process() as nat));
                    assert(all == lines(top_output@));
                }
                return Some(string_from_chars(parts[8].as_slice()));
            }
            proof {
                if parts@.len() >= 9 {
                    assert(parts@.map_values(|w: Vec<char>| w@)[0] == parts@[0]@);
                }
                assert(top_field(all.skip(i as int), pid_text@) == top_field(all.skip(i + 1), pid_text@));
            }
            i = i + 1;
        }
        proof {
            assert(all.skip(i as int).len() == 0);
        }
        None
    }
}

/// Reads the battery level out of the system's power supply information.
pub struct BatteryMonitor;

impl BatteryMonitor {
    /// A battery monitor.
    pub fn new() -> Self {
        BatteryMonitor
    }

    /// The capacity field (in percent) of the battery's capacity text: the
    /// text trimmed.
    pub fn capacity_field(content: &str) -> (field: String)
        ensures
            field@ == trim(content@),
    {
        let chars = chars_of(content);
        let t = trim_chars(&chars);
        string_from_chars(t.as_slice())
    }
}

/// Monitors of a process and of the battery.
pub struct PerformanceProfiler {
    memory_monitor: Option<MemoryMonitor>,
    cpu_monitor: Option<CPUMonitor>,
    battery_monitor: Option<BatteryMonitor>,
}

impl PerformanceProfiler {
    /// The process watched, if any.
    pub closed spec fn process(&self) -> Option<u32> {
        match self.memory_monitor {
            Some(m) => Some(m.pid),
            None => None,
        }
    }

    /// The CPU monitor watches the same process as the memory monitor, and
    /// the battery is watched.
    #[verifier::type_invariant]
    spec fn monitors_agree(&self) -> bool {
        &&& match (self.memory_monitor, self.cpu_monitor) {
            (Some(m), Some(c)) => m.pid == c.pid,
            (None, None) => true,
            _ => false,
        }
        &&& self.battery_monitor is Some
    }

    /// A profiler that watches process `pid`, if given, and the battery.
    pub fn new(pid: Option<u32>) -> (p: Self)
        ensures
            p.process() == pid,
    {
        PerformanceProfiler {
            memory_monitor: match pid {
                Some(id) => Some(MemoryMonitor::new(id)),
                None => None,
            },
            cpu_monitor: match pid {
                Some(id) => Some(CPUMonitor::new(id)),
                None => None,
            },
            battery_monitor: Some(BatteryMonitor::new()),
        }
    }

    /// The memory monitor, if a process is watched.
    pub fn memory_monitor(&self) -> (m: Option<&MemoryMonitor>)
        ensures
            m is Some == self.process() is Some,
            m matches Some(x) ==> Some(x.process()) == self.process(),
    {
        match &self.memory_monitor {
            Some(m) => Some(m),
            None => None,
        }
    }

    /// The CPU monitor, if a process is watched.
    pub fn cpu_monitor(&self) -> (c: Option<&CPUMonitor>)
        ensures
            c is Some == self.process() is Some,
            c matches Some(x) ==> Some(x.process()) == self.process(),
    {
        proof {
            use_type_invariant(self);
        }
        match &self.cpu_monitor {
            Some(c) => Some(c),
            None => None,
        }
    }

    /// The battery monitor.
    pub fn battery_monitor(&self) -> (b: Option<&BatteryMonitor>)
        ensures
            b is Some,
    {
        proof {
            use_type_invariant(self);
        }
        match &self.battery_monitor {
            Some(b) => Some(b),
            None => None,
        }
    }
}

/// Describes the machine from what the system's tools print.
pub struct SystemInfo;

impl SystemInfo {
    /// The processor model out of a `/proc/cpuinfo` text.
    pub fn cpu_model(cpuinfo: &str) -> (model: String)
        ensures
            model@ == cpu_model_text(cpuinfo@),
    {
        let chars = chars_of(cpuinfo);
        let ls = split_lines(&chars);
        let ghost all = ls@.map_values(|l: Vec<char>| l@);
        let mut i: usize = 0;
        proof {
            assert(all.skip(0) == all);
        }
        while i < ls.len()
            invariant
                all == ls@.map_values(|l: Vec<char>| l@),
                all == lines(chars@),
                chars@ == cpuinfo@,
                i <= ls@.len(),
                model_line(all) == model_line(all.skip(i as int)),
            decreases ls@.len() - i,
        {
            let line = &ls[i];
            proof {
                assert(all.skip(i as int)[0] == line@);
                assert(all.skip(i as int).drop_first() == all.skip(i + 1));
            }
            if begins_with(line, "model name") {
                proof {
                    assert(model_line(all) == Some(line@));
                }
                let field = match colon_field(line) {
                    Some(f) => f,
                    None => chars_of("Unknown"),
                };
                proof {
                    assert(all == lines(cpuinfo@));
                    assert(field@ == (match second_field(line@) {
                        Some(f) => f,
                        None => "Unknown"@,
                    }));
                }
                let t = trim_chars(&field);
                return string_from_chars(t.as_slice());
            }
            i = i + 1;
        }
        proof {
            assert(all.skip(i as int).len() == 0);
        }
        string_from_chars(chars_of("Unknown CPU").as_slice())
    }

    /// The second line of `free` output, if it has one.
    pub fn memory_line(free_output: &str) -> (line: Option<String>)
        ensures
            lines(free_output@).len() > 1 ==> (line matches Some(l) && l@ == lines(free_output@)[1]),
            lines(free_output@).len() <= 1 ==> line is None,
    {
        let chars = chars_of(free_output);
        let ls = split_lines(&chars);
        if ls.len() > 1 {
            proof {
                assert(ls@.map_values(|l: Vec<char>| l@)[1] == ls@[1]@);
            }
            Some(string_from_chars(ls[1].as_slice()))
        } else {
            None
        }
    }

    /// The operating system description out of `uname -a` output: the text
    /// trimmed.
    pub fn os_text(uname_output: &str) -> (os: String)
        ensures
            os@ == trim(uname_output@),
    {
        let chars = chars_of(uname_output);
        let t = trim_chars(&chars);
        string_from_chars(t.as_slice())
    }
}

} // verus!
