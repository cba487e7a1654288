//! Hands: configuration and outcome rules for running a Wasm module whose
//! only visible directory is the active plot.

use crate::paths::{join_path, path_join};
use crate::text::{chars_of, has_prefix, owned, prefix_at, push_str};
use vstd::prelude::*;

verus! {

broadcast use vstd::string::group_string_axioms;

/// Errors from loading or running a Hands module.
#[derive(Debug)]
pub enum HandsError {
    Engine(String),
    Module(String),
    Wasi(String),
    Exec(String),
    PlotMissing(String),
    PlotNotDir(String),
}

/// Configuration for a Hands run.
/// Text of a Hands error as it is shown to users.
pub open spec fn hands_message(e: HandsError) -> Seq<char> {
    match e {
        HandsError::Engine(m) => "wasm engine: "@ + m@,
        HandsError::Module(m) => "invalid wasm module: "@ + m@,
        HandsError::Wasi(m) => "wasi setup: "@ + m@,
        HandsError::Exec(m) => "execution: "@ + m@,
        HandsError::PlotMissing(p) => "plot directory does not exist: "@ + p@,
        HandsError::PlotNotDir(p) => "plot path is not a directory: "@ + p@,
    }
}

fn with_prefix(p: &str, s: &String) -> (m: String)
    ensures
        m@ == p@ + s@,
{
    let mut m = owned(p);
    push_str(&mut m, s.as_str());
    m
}

impl HandsError {
    /// The user-facing text of this error.
    pub fn message(&self) -> (m: String)
        ensures
            m@ == hands_message(*self),
    {
        match self {
            HandsError::Engine(x) => with_prefix("wasm engine: ", x),
            HandsError::Module(x) => with_prefix("invalid wasm module: ", x),
            HandsError::Wasi(x) => with_prefix("wasi setup: ", x),
            HandsError::Exec(x) => with_prefix("execution: ", x),
            HandsError::PlotMissing(x) => with_prefix("plot directory does not exist: ", x),
            HandsError::PlotNotDir(x) => with_prefix("plot path is not a directory: ", x),
        }
    }
}

#[derive(Debug, Clone)]
pub struct HandsConfig {
    /// Host path of the active plot (visible to the guest at `/plot`).
    pub plot_dir: String,
    /// Guest argv (the first element is typically the module name).
    pub args: Vec<String>,
    /// Instruction budget; `None` means unlimited.
    pub fuel: Option<u64>,
    /// Whether the guest writes to the host's stdout and stderr.
    pub inherit_stdio: bool,
}

/// Outcome of a module run.
#[derive(Debug, Clone)]
pub struct HandsResult {
    /// WASI exit status if the module called `proc_exit`; otherwise 0.
    pub exit_code: i32,
}

impl HandsConfig {
    /// Plot-scoped config with the program name `hands` and no inherited stdio.
    pub fn for_plot(plot_dir: &str) -> (c: HandsConfig)
        ensures
            c.plot_dir@ == plot_dir@,
            c.args@.len() == 1,
            c.args@[0]@ == "hands"@,
            c.fuel == None::<u64>,
            !c.inherit_stdio,
    {
        let mut args: Vec<String> = Vec::new();
        args.push(owned("hands"));
        HandsConfig { plot_dir: owned(plot_dir), args, fuel: None, inherit_stdio: false }
    }

    /// The same config with guest argv `args`.
    pub fn with_args(self, args: Vec<String>) -> (c: HandsConfig)
        ensures
            c == (HandsConfig { args, ..self }),
    {
        HandsConfig { args, ..self }
    }

    /// The same config with an instruction budget.
    pub fn with_fuel(self, fuel: u64) -> (c: HandsConfig)
        ensures
            c == (HandsConfig { fuel: Some(fuel), ..self }),
    {
        HandsConfig { fuel: Some(fuel), ..self }
    }

    /// The same config with stdio inheritance set to `inherit`.
    pub fn with_inherit_stdio(self, inherit: bool) -> (c: HandsConfig)
        ensures
            c == (HandsConfig { inherit_stdio: inherit, ..self }),
    {
        HandsConfig { inherit_stdio: inherit, ..self }
    }

    /// Refuses a plot that does not exist (`exists`) or is not a directory
    /// (`is_dir`).
    pub fn check_plot(&self, exists: bool, is_dir: bool) -> (r: Result<(), HandsError>)
        ensures
            r is Ok <==> exists && is_dir,
            !exists ==> (r matches Err(HandsError::PlotMissing(p)) && p@ == self.plot_dir@),
            exists && !is_dir ==> (r matches Err(HandsError::PlotNotDir(p)) && p@ == self.plot_dir@),
    {
        if !exists {
            return Err(HandsError::PlotMissing(self.plot_dir.clone()));
        }
        if !is_dir {
            return Err(HandsError::PlotNotDir(self.plot_dir.clone()));
        }
        Ok(())
    }
}

/// The default plot directory under a Helix home: `plots/default`.
pub fn default_plot_dir(home_root: &str) -> (p: String)
    ensures
        p@ == join_path(join_path(home_root@, "plots"@), "default"@),
{
    let plots = path_join(home_root, "plots");
    path_join(plots.as_str(), "default")
}

/// The value of a decimal digit.
pub open spec fn digit_value(c: char) -> int {
    c as int - 48
}

/// Whether every character of `s` is a decimal digit.
pub open spec fn all_digits(s: Seq<char>) -> bool {
    forall|i: int| 0 <= i < s.len() ==> '0' <= #[trigger] s[i] && s[i] <= '9'
}

/// Decimal value of a digit string.
pub open spec fn decimal(s: Seq<char>) -> int
    decreases s.len(),
{
    if s.len() == 0 {
        0
    } else {
        10 * decimal(s.drop_last()) + digit_value(s.last())
    }
}

/// `str::parse::<i32>`: an optional sign followed by at least one decimal
/// digit, within the range of `i32`.
pub open spec fn parse_i32(s: Seq<char>) -> Option<i32> {
    let neg = s.len() > 0 && s[0] == '-';
    let digits = if s.len() > 0 && (s[0] == '-' || s[0] == '+') {
        s.drop_first()
    } else {
        s
    };
    if digits.len() == 0 || !all_digits(digits) {
        None
    } else {
        let v = if neg {
            -decimal(digits)
        } else {
            decimal(digits)
        };
        if i32::MIN <= v <= i32::MAX {
            Some(v as i32)
        } else {
            None
        }
    }
}

/// The longest prefix of `s` made of ASCII digits and `-`.
pub open spec fn status_chars(s: Seq<char>) -> Seq<char>
    decreases s.len(),
{
    if s.len() > 0 && (('0' <= s[0] && s[0] <= '9') || s[0] == '-') {
        seq![s[0]] + status_chars(s.drop_first())
    } else {
        Seq::empty()
    }
}

/// Status parsed after prefix `p` of `s`, when `s` starts with `p`.
pub open spec fn status_after(s: Seq<char>, p: Seq<char>) -> Option<i32> {
    if has_prefix(s, p) {
        parse_i32(status_chars(s.skip(p.len() as int)))
    } else {
        None
    }
}

/// The exit status a failure message carries, in one of the forms that
/// WASI hosts use to report `proc_exit`.
pub open spec fn status_of_message(s: Seq<char>) -> Option<i32> {
    match status_after(s, "Exited with i32 exit status "@) {
        Some(c) => Some(c),
        None => match status_after(s, "exit code: "@) {
            Some(c) => Some(c),
            None => status_after(s, "I32Exit("@),
        },
    }
}

/// The first exit status carried by a chain of failure messages.
pub open spec fn exit_status_of(causes: Seq<Seq<char>>) -> Option<i32>
    decreases causes.len(),
{
    if causes.len() == 0 {
        None
    } else {
        match status_of_message(causes[0]) {
            Some(c) => Some(c),
            None => exit_status_of(causes.drop_first()),
        }
    }
}

/// Parses `s[from..to]` as `str::parse::<i32>` does.
pub fn parse_i32_chars(s: &[char], from: usize, to: usize) -> (r: Option<i32>)
    requires
        from <= to <= s@.len(),
    ensures
        r == parse_i32(s@.subrange(from as int, to as int)),
{
    let ghost t = s@.subrange(from as int, to as int);
    let mut start = from;
    let mut neg = false;
    if from < to && (s[from] == '-' || s[from] == '+') {
        neg = s[from] == '-';
        start = from + 1;
    }
    let ghost digits = s@.subrange(start as int, to as int);
    assert(digits == if t.len() > 0 && (t[0] == '-' || t[0] == '+') {
        t.drop_first()
    } else {
        t
    });
    if start == to {
        return None;
    }
    let mut v: u64 = 0;
    let mut big = false;
    let mut i = start;
    while i < to
        invariant
            from <= start <= i <= to <= s@.len(),
            t == s@.subrange(from as int, to as int),
            digits == if t.len() > 0 && (t[0] == '-' || t[0] == '+') {
                t.drop_first()
            } else {
                t
            },
            neg == (t.len() > 0 && t[0] == '-'),
            digits.len() > 0,
            digits == s@.subrange(start as int, to as int),
            all_digits(s@.subrange(start as int, i as int)),
            big <==> decimal(s@.subrange(start as int, i as int)) > 2147483648,
            !big ==> v == decimal(s@.subrange(start as int, i as int)),
        decreases to - i,
    {
        let c = s[i];
        if !('0' <= c && c <= '9') {
            assert(digits[i - start] == c);
            assert(!all_digits(digits));
            return None;
        }
        let ghost p = s@.subrange(start as int, i as int);
        assert(s@.subrange(start as int, i + 1) == p.push(c));
        assert(s@.subrange(start as int, i + 1).drop_last() == p);
        if !big {
            let d = (c as u32 - 48) as u64;
            let nv = v * 10 + d;
            if nv > 2147483648 {
                big = true;
            } else {
                v = nv;
            }
        }
        i = i + 1;
    }
    assert(s@.subrange(start as int, to as int) == digits);
    if big {
        return None;
    }
    if neg {
        Some((0 - (v as i64)) as i32)
    } else if v <= 2147483647 {
        Some(v as i32)
    } else {
        None
    }
}

/// Exit status after prefix `p` of `s`, when `s` starts with `p`.
fn status_after_exec(s: &[char], p: &str) -> (r: Option<i32>)
    ensures
        r == status_after(s@, p@),
{
    let pv = chars_of(p);
    if !prefix_at(s, 0, pv.as_slice()) {
        assert(s@.skip(0) == s@);
        return None;
    }
    assert(s@.skip(0) == s@);
    let from = pv.len();
    let mut j = from;
    while j < s.len() && (('0' <= s[j] && s[j] <= '9') || s[j] == '-')
        invariant
            from <= j <= s@.len(),
            status_chars(s@.skip(from as int)) == s@.subrange(from as int, j as int)
                + status_chars(s@.skip(j as int)),
        decreases s@.len() - j,
    {
        assert(s@.skip(j as int).drop_first() == s@.skip(j + 1));
        assert(s@.subrange(from as int, j + 1) == s@.subrange(from as int, j as int) + seq![
            s@[j as int],
        ]);
        j = j + 1;
    }
    assert(status_chars(s@.skip(j as int)) == Seq::<char>::empty());
    parse_i32_chars(s, from, j)
}

/// The first exit status carried by `causes`, the messages of an error and
/// of its causes in order, if any of them reports one.
pub fn extract_exit_status(causes: &[String]) -> (r: Option<i32>)
    ensures
        r == exit_status_of(causes@.map_values(|c: String| c@)),
{
    let ghost cs = causes@.map_values(|c: String| c@);
    assert(cs.skip(0) == cs);
    let mut i: usize = 0;
    while i < causes.len()
        invariant
            cs == causes@.map_values(|c: String| c@),
            i <= causes@.len(),
            exit_status_of(cs) == exit_status_of(cs.skip(i as int)),
        decreases causes@.len() - i,
    {
        let v = chars_of(causes[i].as_str());
        assert(cs.skip(i as int)[0] == v@);
        assert(cs.skip(i as int).drop_first() == cs.skip(i + 1));
        let a = status_after_exec(v.as_slice(), "Exited with i32 exit status ");
        if a.is_some() {
            return a;
        }
        let b = status_after_exec(v.as_slice(), "exit code: ");
        if b.is_some() {
            return b;
        }
        let c = status_after_exec(v.as_slice(), "I32Exit(");
        if c.is_some() {
            return c;
        }
        i = i + 1;
    }
    None
}

/// Outcome of a run: `start_failure` is `None` when the module has no
/// `_start` or `_start` returned, and otherwise the messages of the failure
/// chain together with the failure's own rendering.
pub fn run_outcome(start_failure: Option<(Vec<String>, String)>) -> (r: Result<
    HandsResult,
    HandsError,
>)
    ensures
        match start_failure {
            None => r matches Ok(res) && res.exit_code == 0,
            Some((causes, msg)) => match exit_status_of(causes@.map_values(|c: String| c@)) {
                Some(code) => r matches Ok(res) && res.exit_code == code,
                None => r matches Err(HandsError::Exec(m)) && m == msg,
            },
        },
{
    match start_failure {
        None => Ok(HandsResult { exit_code: 0 }),
        Some((causes, msg)) => match extract_exit_status(causes.as_slice()) {
            Some(code) => Ok(HandsResult { exit_code: code }),
            None => Err(HandsError::Exec(msg)),
        },
    }
}

} // verus!
