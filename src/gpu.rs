//! GPU readings from one row of the vendor tool's comma-separated output:
//! name, temperature, usage, memory usage, memory total, used and free,
//! power draw and fan speed.
use vstd::prelude::*;
use crate::cpu::clamp_percent;
use crate::network::number_or_zero;
use crate::text::{read_view, copy_range, lossy_text, parse_milli, parse_milli_spec, parse_u64, text_from_bytes, tokens, tokens_from};
use crate::types::GpuMetrics;

verus! {

/// Fields of a row.
pub const GPU_FIELDS: usize = 9;

/// Start of the first `, ` in `s[i..end]`, or `end`.
pub open spec fn sep_end(s: Seq<u8>, i: int, end: int) -> int
    decreases end - i,
{
    if i + 1 >= end {
        end
    } else if s[i] == 44 && s[i + 1] == 32 {
        i
    } else {
        sep_end(s, i + 1, end)
    }
}

/// The pieces of `s[i..end]` between `, ` separators, as `str::split` gives
/// them.
pub open spec fn fields_from(s: Seq<u8>, i: int, end: int) -> Seq<(int, int)>
    decreases end + 1 - i,
{
    let j = sep_end(s, i, end);
    if j >= end || j < i || j + 2 > end {
        seq![(i, end)]
    } else {
        seq![(i, j)] + fields_from(s, j + 2, end)
    }
}

/// `s[a..b]` without the whitespace around it.
pub open spec fn trimmed(s: Seq<u8>, a: int, b: int) -> (int, int) {
    let toks = tokens_from(s, a, b);
    if toks.len() == 0 { (a, a) } else { (toks[0].0, toks.last().1) }
}

/// A number field in thousandths, 0 when it is not a number (the tool
/// writes `[N/A]` for what a card does not report).
pub open spec fn field_milli(s: Seq<u8>, f: (int, int)) -> i64 {
    let t = trimmed(s, f.0, f.1);
    match parse_milli_spec(s.subrange(t.0, t.1)) {
        Some(v) => v,
        None => 0,
    }
}

/// A whole-number field, 0 when it is not one.
pub open spec fn field_u64(s: Seq<u8>, f: (int, int)) -> u64 {
    number_or_zero(s, trimmed(s, f.0, f.1))
}

pub open spec fn gpu_view(g: GpuMetrics) -> (Seq<char>, i64, i64, i64, u64, u64, u64, i64, i64) {
    (g.name@, g.temperature, g.usage_percent, g.memory_usage_percent, g.memory_total_mb,
        g.memory_used_mb, g.memory_free_mb, g.power_draw_watts, g.fan_speed_percent)
}

/// The readings in the tool's output: none when it is blank or has fewer
/// than `GPU_FIELDS` fields; percentages are brought into `[0, 100 %]`.
pub open spec fn gpu_reading(s: Seq<u8>) -> Option<(Seq<char>, i64, i64, i64, u64, u64, u64, i64, i64)> {
    let t = trimmed(s, 0, s.len() as int);
    let f = fields_from(s, t.0, t.1);
    if t.0 == t.1 || f.len() < GPU_FIELDS {
        None
    } else {
        let n = trimmed(s, f[0].0, f[0].1);
        Some((
            lossy_text(s.subrange(n.0, n.1)),
            field_milli(s, f[1]),
            clamp_percent(field_milli(s, f[2])),
            clamp_percent(field_milli(s, f[3])),
            field_u64(s, f[4]),
            field_u64(s, f[5]),
            field_u64(s, f[6]),
            field_milli(s, f[7]),
            clamp_percent(field_milli(s, f[8])),
        ))
    }
}

proof fn lemma_sep_end_bounds(s: Seq<u8>, i: int, end: int)
    requires
        i <= end,
    ensures
        i <= sep_end(s, i, end) <= end,
        sep_end(s, i, end) < end ==> sep_end(s, i, end) + 2 <= end,
    decreases end - i,
{
    if !(i + 1 >= end) && !(s[i] == 44 && s[i + 1] == 32) {
        lemma_sep_end_bounds(s, i + 1, end);
    }
}

proof fn lemma_tokens_last(s: Seq<u8>, a: int, b: int)
    requires
        0 <= a <= b <= s.len(),
    ensures
        tokens_from(s, a, b).len() > 0 ==> a <= tokens_from(s, a, b)[0].0 <= tokens_from(s, a, b).last().1 <= b,
{
    crate::text::lemma_tokens_within(s, a, b);
    let toks = tokens_from(s, a, b);
    if toks.len() > 0 {
        assert(toks[0].0 < toks[0].1);
        assert(toks.last() == toks[toks.len() - 1]);
        lemma_tokens_ordered(s, a, b);
    }
}

proof fn lemma_tokens_ordered(s: Seq<u8>, a: int, b: int)
    requires
        0 <= a <= b <= s.len(),
        tokens_from(s, a, b).len() > 0,
    ensures
        tokens_from(s, a, b)[0].0 <= tokens_from(s, a, b).last().1,
    decreases b - a,
{
    crate::text::lemma_tokens_within(s, a, b);
    let toks = tokens_from(s, a, b);
    assert(toks[0].0 < toks[0].1);
    assert(toks.last().0 < toks.last().1);
    if a < b && crate::text::is_space(s[a]) {
        assert(toks == tokens_from(s, a + 1, b));
        lemma_tokens_ordered(s, a + 1, b);
    } else if a < b {
        let j = crate::text::token_end(s, a + 1, b);
        let rest = tokens_from(s, j, b);
        if j > a && j <= b {
            assert(toks == seq![(a, j)] + rest);
            if rest.len() > 0 {
                crate::text::lemma_tokens_within(s, j, b);
                assert(toks.last() == rest.last());
                assert(rest.last().0 >= j);
            }
        }
    }
}

fn trim_range(s: &[u8], a: usize, b: usize) -> (r: (usize, usize))
    requires
        a <= b <= s@.len(),
    ensures
        r.0 == trimmed(s@, a as int, b as int).0,
        r.1 == trimmed(s@, a as int, b as int).1,
        a <= r.0 <= r.1 <= b,
{
    let toks = tokens(s, a, b);
    proof {
        lemma_tokens_last(s@, a as int, b as int);
    }
    if toks.len() == 0 {
        (a, a)
    } else {
        let last = toks.len() - 1;
        (toks[0].0, toks[last].1)
    }
}

/// The pieces of `s[a..b]` between `, ` separators.
fn split_fields(s: &[u8], a: usize, b: usize) -> (r: Vec<(usize, usize)>)
    requires
        a <= b <= s@.len(),
    ensures
        r@.len() == fields_from(s@, a as int, b as int).len(),
        forall|k: int| 0 <= k < r@.len() ==> (#[trigger] r@[k]).0 == fields_from(s@, a as int, b as int)[k].0
            && r@[k].1 == fields_from(s@, a as int, b as int)[k].1,
        forall|k: int| 0 <= k < r@.len() ==> a <= (#[trigger] r@[k]).0 <= r@[k].1 <= b,
{
    let ghost whole = fields_from(s@, a as int, b as int);
    let mut out: Vec<(usize, usize)> = Vec::new();
    let mut i = a;
    loop
        invariant
            a <= i <= b <= s@.len(),
            whole == fields_from(s@, a as int, b as int),
            out@.len() + fields_from(s@, i as int, b as int).len() == whole.len(),
            forall|k: int| 0 <= k < out@.len() ==> (#[trigger] out@[k]).0 == whole[k].0 && out@[k].1 == whole[k].1,
            forall|k: int| 0 <= k < fields_from(s@, i as int, b as int).len()
                ==> #[trigger] fields_from(s@, i as int, b as int)[k] == whole[out@.len() + k],
            forall|k: int| 0 <= k < out@.len() ==> a <= (#[trigger] out@[k]).0 <= out@[k].1 <= b,
        ensures
            out@.len() == whole.len(),
            forall|k: int| 0 <= k < out@.len() ==> (#[trigger] out@[k]).0 == whole[k].0 && out@[k].1 == whole[k].1,
            forall|k: int| 0 <= k < out@.len() ==> a <= (#[trigger] out@[k]).0 <= out@[k].1 <= b,
        decreases b + 1 - i,
    {
        let mut j = i;
        while b - j > 1 && !(s[j] == 44 && s[j + 1] == 32)
            invariant
                i <= j <= b <= s@.len(),
                sep_end(s@, i as int, b as int) == sep_end(s@, j as int, b as int),
            decreases b - j,
        {
            j = j + 1;
        }
        let e = if b - j > 1 { j } else { b };
        proof {
            lemma_sep_end_bounds(s@, i as int, b as int);
        }
        assert(e == sep_end(s@, i as int, b as int));
        let ghost here = fields_from(s@, i as int, b as int);
        if e >= b {
            assert(here == seq![(i as int, b as int)]);
            assert(here[0] == whole[out@.len() as int]);
            out.push((i, b));
            return out;
        }
        let ghost rest = fields_from(s@, e + 2, b as int);
        assert(here == seq![(i as int, e as int)] + rest);
        assert(here[0] == (i as int, e as int));
        assert forall|k: int| 0 <= k < rest.len() implies #[trigger] rest[k] == whole[out@.len() + 1 + k] by {
            assert(here[k + 1] == rest[k]);
        }
        out.push((i, e));
        i = e + 2;
    }
}

fn milli_field(s: &[u8], f: (usize, usize)) -> (r: i64)
    requires
        f.0 <= f.1 <= s@.len(),
    ensures
        r == field_milli(s@, (f.0 as int, f.1 as int)),
{
    let t = trim_range(s, f.0, f.1);
    match parse_milli(s, t.0, t.1) {
        Some(v) => v,
        None => 0,
    }
}

fn u64_field(s: &[u8], f: (usize, usize)) -> (r: u64)
    requires
        f.0 <= f.1 <= s@.len(),
    ensures
        r == field_u64(s@, (f.0 as int, f.1 as int)),
{
    let t = trim_range(s, f.0, f.1);
    match parse_u64(s, t.0, t.1) {
        Some(v) => v,
        None => 0,
    }
}

fn clamp(v: i64) -> (r: i64)
    ensures
        r == clamp_percent(v),
{
    if v < 0 { 0 } else if v > 100_000 { 100_000 } else { v }
}

/// The readings of one row of the tool's output.
pub fn parse_gpu_output(output: &[u8]) -> (r: Option<GpuMetrics>)
    ensures
        match (r, gpu_reading(output@)) {
            (Some(g), Some(v)) => gpu_view(g) == v && g.wf(),
            (None, None) => true,
            _ => false,
        },
{
    let s = output;
    let t = trim_range(s, 0, s.len());
    if t.0 == t.1 {
        return None;
    }
    let f = split_fields(s, t.0, t.1);
    if f.len() < GPU_FIELDS {
        return None;
    }
    let n = trim_range(s, f[0].0, f[0].1);
    let name = text_from_bytes(copy_range(s, n.0, n.1).as_slice());
    Some(GpuMetrics {
        name,
        temperature: milli_field(s, f[1]),
        usage_percent: clamp(milli_field(s, f[2])),
        memory_usage_percent: clamp(milli_field(s, f[3])),
        memory_total_mb: u64_field(s, f[4]),
        memory_used_mb: u64_field(s, f[5]),
        memory_free_mb: u64_field(s, f[6]),
        power_draw_watts: milli_field(s, f[7]),
        fan_speed_percent: clamp(milli_field(s, f[8])),
    })
}

/// GPU sampler, usable when the vendor tool was found at start-up.
pub struct GpuCollector {
    nvidia_smi_available: bool,
}

impl GpuCollector {
    pub closed spec fn available(&self) -> bool {
        self.nvidia_smi_available
    }

    /// `available` says whether the tool answered a version query.
    pub fn new(available: bool) -> (r: GpuCollector)
        ensures
            r.available() == available,
    {
        GpuCollector { nvidia_smi_available: available }
    }

    /// The readings of the tool's output (`None` when it could not be run);
    /// none at all without the tool.
    pub fn collect(&self, output: Option<&[u8]>) -> (r: Option<GpuMetrics>)
        ensures
            !self.available() ==> r is None,
            self.available() && output is None ==> r is None,
            self.available() && output is Some ==> match (r, gpu_reading(read_view(output).unwrap())) {
                (Some(g), Some(v)) => gpu_view(g) == v && g.wf(),
                (None, None) => true,
                _ => false,
            },
    {
        if !self.nvidia_smi_available {
            return None;
        }
        match output {
            Some(o) => parse_gpu_output(o),
            None => None,
        }
    }

    pub fn is_available(&self) -> (r: bool)
        ensures
            r == self.available(),
    {
        self.nvidia_smi_available
    }
}

} // verus!
