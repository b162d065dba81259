//! Temperatures of the hardware-monitor sensor groups.
use vstd::prelude::*;
use crate::analyzer::spec_max_temperature;
use crate::text::{decimal_text, int_text, parse_i32, parse_i32_spec, tokens, tokens_from};
use crate::types::Temperature;

verus! {

/// Numbered temperature channels probed in each sensor group.
pub const TEMP_CHANNELS: usize = 10;

/// What was read of one sensor group: its name and, for channels 1 to
/// `TEMP_CHANNELS` in order, the text of the input file and the trimmed
/// label (`None` where a file could not be read).
pub struct HwmonReading {
    pub name: Option<String>,
    pub inputs: Vec<Option<Vec<u8>>>,
    pub labels: Vec<Option<String>>,
}

/// The reading in a channel's input file, in thousandths of a degree: the
/// file holds one integer in that unit, with whitespace around it.
pub open spec fn channel_value(text: Seq<u8>) -> Option<i32> {
    let toks = tokens_from(text, 0, text.len() as int);
    if toks.len() == 1 {
        parse_i32_spec(text.subrange(toks[0].0, toks[0].1))
    } else {
        None
    }
}

/// Name of the group, `unknown` when it could not be read.
pub open spec fn group_name(g: HwmonReading) -> Seq<char> {
    match g.name {
        Some(n) => n@,
        None => "unknown"@,
    }
}

/// Label of channel `i` (counted from 1), `Sensor i` when it could not be
/// read.
pub open spec fn channel_label(label: Option<String>, i: int) -> Seq<char> {
    match label {
        Some(l) => l@,
        None => "Sensor "@ + decimal_text(i),
    }
}

pub open spec fn temperature_view(t: Temperature) -> (Seq<char>, i64, Seq<char>) {
    (t.sensor@, t.value, t.label@)
}

/// Readings of the first `k` channels of a group, in channel order.
pub open spec fn channel_readings(g: HwmonReading, k: int) -> Seq<(Seq<char>, i64, Seq<char>)>
    decreases k,
{
    if k <= 0 {
        Seq::empty()
    } else {
        let rest = channel_readings(g, k - 1);
        let i = k - 1;
        match g.inputs@[i] {
            Some(text) => match channel_value(text@) {
                Some(v) => rest.push((group_name(g), v as i64,
                    channel_label(if i < g.labels@.len() { g.labels@[i] } else { None }, k))),
                None => rest,
            },
            None => rest,
        }
    }
}

/// Channels probed in a group.
pub open spec fn probed(g: HwmonReading) -> int {
    if g.inputs@.len() < TEMP_CHANNELS { g.inputs@.len() as int } else { TEMP_CHANNELS as int }
}

/// Readings of all groups, group after group.
pub open spec fn all_readings(groups: Seq<HwmonReading>) -> Seq<(Seq<char>, i64, Seq<char>)>
    decreases groups.len(),
{
    if groups.len() == 0 {
        Seq::empty()
    } else {
        all_readings(groups.drop_last()) + channel_readings(groups.last(), probed(groups.last()))
    }
}

pub open spec fn temperatures_view(v: Seq<Temperature>) -> Seq<(Seq<char>, i64, Seq<char>)> {
    v.map_values(|t: Temperature| temperature_view(t))
}

fn read_channel(text: &Vec<u8>) -> (r: Option<i32>)
    ensures
        r == channel_value(text@),
{
    let s = text.as_slice();
    let toks = tokens(s, 0, s.len());
    if toks.len() == 1 {
        parse_i32(s, toks[0].0, toks[0].1)
    } else {
        None
    }
}

/// Appends the readings of one group.
fn collect_from_hwmon(g: &HwmonReading, out: &mut Vec<Temperature>)
    ensures
        temperatures_view(final(out)@) == temperatures_view(old(out)@) + channel_readings(*g, probed(*g)),
{
    let n = if g.inputs.len() < TEMP_CHANNELS { g.inputs.len() } else { TEMP_CHANNELS };
    let ghost start = temperatures_view(out@);
    let mut k: usize = 0;
    assert(start + channel_readings(*g, 0) =~= start);
    while k < n
        invariant
            k <= n,
            n == probed(*g),
            n <= g.inputs@.len(),
            temperatures_view(out@) == start + channel_readings(*g, k as int),
        decreases n - k,
    {
        match &g.inputs[k] {
            Some(text) => {
                match read_channel(text) {
                    Some(v) => {
                        let sensor = match &g.name {
                            Some(name) => name.clone(),
                            None => String::from_str("unknown"),
                        };
                        let read: Option<&String> = if k < g.labels.len() {
                            match &g.labels[k] {
                                Some(l) => Some(l),
                                None => None,
                            }
                        } else {
                            None
                        };
                        let label = match read {
                            Some(l) => l.clone(),
                            None => {
                                let mut l = String::from_str("Sensor ");
                                let number = int_text(k as i128 + 1);
                                l.append(number.as_str());
                                l
                            },
                        };
                        let ghost before = out@;
                        let t = Temperature { sensor, value: v as i64, label };
                        let ghost tv = temperature_view(t);
                        out.push(t);
                        assert(out@ == before.push(t));
                        assert(temperatures_view(out@) =~= temperatures_view(before).push(tv));
                        assert(channel_readings(*g, k + 1) == channel_readings(*g, k as int).push((group_name(*g), v as i64,
                            channel_label(if k < g.labels@.len() { g.labels@[k as int] } else { None }, k + 1))));
                        assert(temperatures_view(out@) =~= start + channel_readings(*g, k + 1));
                    },
                    None => {},
                }
            },
            None => {},
        }
        k = k + 1;
    }
}

/// Temperature sampler.
pub struct TemperatureCollector {}

impl TemperatureCollector {
    pub fn new() -> (r: TemperatureCollector) {
        TemperatureCollector {}
    }

    /// Every reading of every sensor group, group after group and channel
    /// after channel.
    pub fn collect(&self, groups: &Vec<HwmonReading>) -> (r: Vec<Temperature>)
        ensures
            temperatures_view(r@) == all_readings(groups@),
    {
        let mut out: Vec<Temperature> = Vec::new();
        let mut i: usize = 0;
        assert(temperatures_view(out@) =~= all_readings(groups@.subrange(0, 0)));
        while i < groups.len()
            invariant
                i <= groups@.len(),
                temperatures_view(out@) == all_readings(groups@.subrange(0, i as int)),
            decreases groups@.len() - i,
        {
            assert(groups@.subrange(0, i + 1).drop_last() =~= groups@.subrange(0, i as int));
            collect_from_hwmon(&groups[i], &mut out);
            i = i + 1;
        }
        assert(groups@.subrange(0, i as int) =~= groups@);
        out
    }

    /// The largest reading over all groups, 0 when there is none.
    pub fn get_max_temp(&self, groups: &Vec<HwmonReading>) -> (r: i64)
        ensures
            exists|t: Seq<Temperature>| temperatures_view(t) == all_readings(groups@)
                && r == spec_max_temperature(t),
    {
        let temps = self.collect(groups);
        let mut best: i64 = 0;
        let mut i: usize = 0;
        while i < temps.len()
            invariant
                i <= temps@.len(),
                best == spec_max_temperature(temps@.subrange(0, i as int)),
            decreases temps@.len() - i,
        {
            assert(temps@.subrange(0, i + 1).drop_last() =~= temps@.subrange(0, i as int));
            if temps[i].value > best {
                best = temps[i].value;
            }
            i = i + 1;
        }
        assert(temps@.subrange(0, i as int) =~= temps@);
        best
    }
}

} // verus!

verus! {

/// `s` as the bytes of its text.
pub open spec fn ascii_of(s: Seq<char>) -> Seq<u8> {
    s.map_values(|c: char| c as u8)
}

/// The sensor group name holds one of `patterns`.
pub open spec fn sensor_matches(t: (Seq<char>, i64, Seq<char>), patterns: Seq<Seq<u8>>) -> bool {
    exists|k: int| 0 <= k < patterns.len() && crate::text::has_sub(vstd::utf8::encode_utf8(t.0), #[trigger] patterns[k])
}

/// The readings whose sensor group name holds one of `patterns`, in order.
pub open spec fn readings_matching(v: Seq<(Seq<char>, i64, Seq<char>)>, patterns: Seq<Seq<u8>>) -> Seq<(Seq<char>, i64, Seq<char>)>
    decreases v.len(),
{
    if v.len() == 0 {
        Seq::empty()
    } else {
        let rest = readings_matching(v.drop_last(), patterns);
        if sensor_matches(v.last(), patterns) { rest.push(v.last()) } else { rest }
    }
}

fn name_matches(name: &String, patterns: &Vec<Vec<u8>>) -> (r: bool)
    ensures
        r == exists|k: int| 0 <= k < patterns@.len()
            && crate::text::has_sub(vstd::utf8::encode_utf8(name@), #[trigger] patterns@[k]@),
{
    let b = name.as_str().as_bytes();
    let mut k: usize = 0;
    while k < patterns.len()
        invariant
            k <= patterns@.len(),
            b@ == vstd::utf8::encode_utf8(name@),
            forall|j: int| 0 <= j < k ==> !crate::text::has_sub(b@, #[trigger] patterns@[j]@),
        decreases patterns@.len() - k,
    {
        assert(b@.subrange(0, b@.len() as int) =~= b@);
        if crate::text::contains_bytes(b, 0, b.len(), patterns[k].as_slice()) {
            return true;
        }
        k = k + 1;
    }
    false
}

fn word(text: &str) -> (r: Vec<u8>)
    ensures
        r@ == vstd::utf8::encode_utf8(text@),
{
    let b = text.as_bytes();
    crate::text::copy_range(b, 0, b.len())
}

impl TemperatureCollector {
    fn filtered(&self, groups: &Vec<HwmonReading>, patterns: &Vec<Vec<u8>>) -> (r: Vec<Temperature>)
        ensures
            temperatures_view(r@) == readings_matching(all_readings(groups@),
                patterns@.map_values(|p: Vec<u8>| p@)),
    {
        let temps = self.collect(groups);
        let ghost pats = patterns@.map_values(|p: Vec<u8>| p@);
        let ghost all = temperatures_view(temps@);
        let mut out: Vec<Temperature> = Vec::new();
        let mut i: usize = 0;
        while i < temps.len()
            invariant
                i <= temps@.len(),
                all == temperatures_view(temps@),
                pats == patterns@.map_values(|p: Vec<u8>| p@),
                temperatures_view(out@) == readings_matching(all.subrange(0, i as int), pats),
            decreases temps@.len() - i,
        {
            assert(all.subrange(0, i + 1).drop_last() =~= all.subrange(0, i as int));
            let m = name_matches(&temps[i].sensor, patterns);
            proof {
                assert forall|k: int| 0 <= k < pats.len() implies pats[k] == #[trigger] patterns@[k]@ by {}
            }
            if m {
                let t = Temperature { sensor: temps[i].sensor.clone(), value: temps[i].value, label: temps[i].label.clone() };
                let ghost before = out@;
                out.push(t);
                assert(temperatures_view(out@) =~= temperatures_view(before).push(all[i as int]));
            }
            i = i + 1;
        }
        assert(all.subrange(0, i as int) =~= all);
        out
    }

    /// Readings of CPU sensor groups (`k10temp`, `coretemp`).
    pub fn get_cpu_temps(&self, groups: &Vec<HwmonReading>) -> (r: Vec<Temperature>)
        ensures
            temperatures_view(r@) == readings_matching(all_readings(groups@),
                seq![vstd::utf8::encode_utf8("k10temp"@), vstd::utf8::encode_utf8("coretemp"@)]),
    {
        let mut patterns: Vec<Vec<u8>> = Vec::new();
        patterns.push(word("k10temp"));
        patterns.push(word("coretemp"));
        assert(patterns@.map_values(|p: Vec<u8>| p@) =~= seq![vstd::utf8::encode_utf8("k10temp"@),
            vstd::utf8::encode_utf8("coretemp"@)]);
        self.filtered(groups, &patterns)
    }

    /// Readings of NVMe drive sensor groups.
    pub fn get_nvme_temps(&self, groups: &Vec<HwmonReading>) -> (r: Vec<Temperature>)
        ensures
            temperatures_view(r@) == readings_matching(all_readings(groups@), seq![vstd::utf8::encode_utf8("nvme"@)]),
    {
        let mut patterns: Vec<Vec<u8>> = Vec::new();
        patterns.push(word("nvme"));
        assert(patterns@.map_values(|p: Vec<u8>| p@) =~= seq![vstd::utf8::encode_utf8("nvme"@)]);
        self.filtered(groups, &patterns)
    }

    /// Readings of GPU sensor groups (`amdgpu`, `nvidia`, `radeon`).
    pub fn get_gpu_temps(&self, groups: &Vec<HwmonReading>) -> (r: Vec<Temperature>)
        ensures
            temperatures_view(r@) == readings_matching(all_readings(groups@),
                seq![vstd::utf8::encode_utf8("amdgpu"@), vstd::utf8::encode_utf8("nvidia"@),
                    vstd::utf8::encode_utf8("radeon"@)]),
    {
        let mut patterns: Vec<Vec<u8>> = Vec::new();
        patterns.push(word("amdgpu"));
        patterns.push(word("nvidia"));
        patterns.push(word("radeon"));
        assert(patterns@.map_values(|p: Vec<u8>| p@) =~= seq![vstd::utf8::encode_utf8("amdgpu"@),
            vstd::utf8::encode_utf8("nvidia"@), vstd::utf8::encode_utf8("radeon"@)]);
        self.filtered(groups, &patterns)
    }
}

} // verus!
