//! USB devices, with a best-effort timeout flag taken from recent kernel log
//! lines that mention both `usb` and `timeout`.
use vstd::prelude::*;
use vstd::utf8::encode_utf8;
use crate::text::{
    contains_bytes, copy_range, has_sub, lower_of, lowercase, read_view, is_digit, lines, lossy_text, split_lines, text_from_bytes, tokens,
    tokens_from,
};
use crate::types::UsbDevice;

verus! {

/// What was read of one entry of the USB device tree (`None` where a file is
/// missing or unreadable; text trimmed).
pub struct UsbEntry {
    pub vendor: Option<String>,
    pub product: Option<String>,
    pub manufacturer: Option<String>,
    pub product_name: Option<String>,
}

pub open spec fn device_view(d: UsbDevice) -> (Seq<char>, Seq<char>, Seq<char>, bool) {
    (d.id@, d.manufacturer@, d.product@, d.has_timeout)
}

pub open spec fn devices_view(v: Seq<UsbDevice>) -> Seq<(Seq<char>, Seq<char>, Seq<char>, bool)> {
    v.map_values(|d: UsbDevice| device_view(d))
}

/// The device an entry describes: none unless it has both a vendor and a
/// product id (interfaces have neither). Its id is `vendor:product`; the
/// manufacturer defaults to `Unknown`, the product name to `USB Device <id>`.
pub open spec fn device_of(e: UsbEntry) -> Option<(Seq<char>, Seq<char>, Seq<char>)> {
    match (e.vendor, e.product) {
        (Some(v), Some(p)) => {
            let id = v@ + ":"@ + p@;
            Some((
                id,
                match e.manufacturer { Some(m) => m@, None => "Unknown"@ },
                match e.product_name { Some(n) => n@, None => "USB Device "@ + id },
            ))
        },
        _ => None,
    }
}

pub open spec fn has_byte(w: Seq<u8>, b: u8) -> bool {
    exists|i: int| 0 <= i < w.len() && w[i] == b
}

pub open spec fn has_digit(w: Seq<u8>) -> bool {
    exists|i: int| 0 <= i < w.len() && is_digit(w[i])
}

pub open spec fn starts_with_usb(w: Seq<u8>) -> bool {
    w.len() >= 3 && w[0] == 117 && w[1] == 115 && w[2] == 98
}

/// A word that looks like a USB device path (`1-2`, `usb1-2.3`): it holds a
/// dash and a digit.
pub open spec fn is_device_word(w: Seq<u8>) -> bool {
    (starts_with_usb(w) || has_byte(w, 45)) && has_digit(w) && has_byte(w, 45)
}

/// The first of the tokens that is a device word.
pub open spec fn device_word(s: Seq<u8>, toks: Seq<(int, int)>) -> Option<(int, int)>
    decreases toks.len(),
{
    if toks.len() == 0 {
        None
    } else if is_device_word(s.subrange(toks[0].0, toks[0].1)) {
        Some(toks[0])
    } else {
        device_word(s, toks.drop_first())
    }
}

/// Device words of the log lines that mention both `usb` and `timeout`.
pub open spec fn timeout_words(s: Seq<u8>, ls: Seq<(int, int)>) -> Seq<Seq<u8>>
    decreases ls.len(),
{
    if ls.len() == 0 {
        Seq::empty()
    } else {
        let rest = timeout_words(s, ls.drop_last());
        let l = ls.last();
        let line = s.subrange(l.0, l.1);
        if has_sub(line, "usb"@.map_values(|c: char| c as u8)) && has_sub(line, "timeout"@.map_values(|c: char| c as u8)) {
            match device_word(s, tokens_from(s, l.0, l.1)) {
                Some(t) => rest.push(s.subrange(t.0, t.1)),
                None => rest,
            }
        } else {
            rest
        }
    }
}

/// A kernel log as UTF-8 text in lower case, its invalid sequences replaced.
pub open spec fn lowered_log(c: Seq<u8>) -> Seq<u8> {
    encode_utf8(lower_of(lossy_text(c)))
}

/// Device words of recent timeouts in a kernel log, read as lower-case
/// text; none when the log could not be read.
pub open spec fn log_timeouts(log: Option<Seq<u8>>) -> Seq<Seq<u8>> {
    match log {
        Some(c) => timeout_words(lowered_log(c), lines(lowered_log(c))),
        None => Seq::empty(),
    }
}

/// The devices of the entries, in order, each flagged when its id is among
/// the timeout words.
pub open spec fn devices_of(entries: Seq<UsbEntry>, words: Seq<Seq<u8>>) -> Seq<(Seq<char>, Seq<char>, Seq<char>, bool)>
    decreases entries.len(),
{
    if entries.len() == 0 {
        Seq::empty()
    } else {
        let rest = devices_of(entries.drop_last(), words);
        match device_of(entries.last()) {
            Some(d) => rest.push((d.0, d.1, d.2, words.contains(encode_utf8(d.0)))),
            None => rest,
        }
    }
}

pub open spec fn flagged_count(v: Seq<(Seq<char>, Seq<char>, Seq<char>, bool)>) -> nat
    decreases v.len(),
{
    if v.len() == 0 {
        0
    } else {
        flagged_count(v.drop_last()) + if v.last().3 { 1nat } else { 0nat }
    }
}

fn has_byte_in(s: &[u8], a: usize, b: usize, x: u8) -> (r: bool)
    requires
        a <= b <= s@.len(),
    ensures
        r == has_byte(s@.subrange(a as int, b as int), x),
{
    let mut k = a;
    while k < b
        invariant
            a <= k <= b <= s@.len(),
            forall|j: int| a <= j < k ==> s@[j] != x,
        decreases b - k,
    {
        if s[k] == x {
            assert(s@.subrange(a as int, b as int)[k - a] == x);
            return true;
        }
        k = k + 1;
    }
    assert forall|i: int| 0 <= i < b - a implies s@.subrange(a as int, b as int)[i] != x by {
        assert(s@.subrange(a as int, b as int)[i] == s@[a + i]);
    }
    false
}

fn has_digit_in(s: &[u8], a: usize, b: usize) -> (r: bool)
    requires
        a <= b <= s@.len(),
    ensures
        r == has_digit(s@.subrange(a as int, b as int)),
{
    let mut k = a;
    while k < b
        invariant
            a <= k <= b <= s@.len(),
            forall|j: int| a <= j < k ==> !is_digit(s@[j]),
        decreases b - k,
    {
        if s[k] >= 48 && s[k] <= 57 {
            assert(is_digit(s@.subrange(a as int, b as int)[k - a]));
            return true;
        }
        k = k + 1;
    }
    assert forall|i: int| 0 <= i < b - a implies !is_digit(s@.subrange(a as int, b as int)[i]) by {
        assert(s@.subrange(a as int, b as int)[i] == s@[a + i]);
    }
    false
}

fn device_word_in(s: &[u8], a: usize, b: usize) -> (r: Option<(usize, usize)>)
    requires
        a <= b <= s@.len(),
    ensures
        match (r, device_word(s@, tokens_from(s@, a as int, b as int))) {
            (Some(x), Some(y)) => x.0 == y.0 && x.1 == y.1 && x.0 <= x.1 <= s@.len(),
            (None, None) => true,
            _ => false,
        },
{
    let toks = tokens(s, a, b);
    let ghost all = tokens_from(s@, a as int, b as int);
    let mut i: usize = 0;
    assert(all.subrange(0, all.len() as int) =~= all);
    while i < toks.len()
        invariant
            i <= toks@.len() == all.len(),
            a <= b <= s@.len(),
            all == tokens_from(s@, a as int, b as int),
            forall|k: int| 0 <= k < toks@.len() ==> (#[trigger] toks@[k]).0 == all[k].0 && toks@[k].1 == all[k].1,
            forall|k: int| 0 <= k < toks@.len() ==> a <= (#[trigger] toks@[k]).0 < toks@[k].1 <= b,
            device_word(s@, all) == device_word(s@, all.subrange(i as int, all.len() as int)),
        decreases toks@.len() - i,
    {
        let (x, y) = toks[i];
        let ghost rest = all.subrange(i as int, all.len() as int);
        assert(rest[0] == (x as int, y as int));
        assert(rest.drop_first() =~= all.subrange(i + 1, all.len() as int));
        let usb = y - x >= 3 && s[x] == 117 && s[x + 1] == 115 && s[x + 2] == 98;
        let dash = has_byte_in(s, x, y, 45);
        let digit = has_digit_in(s, x, y);
        proof {
            let w = s@.subrange(x as int, y as int);
            if y - x >= 3 {
                assert(w[0] == s@[x as int] && w[1] == s@[x + 1] && w[2] == s@[x + 2]);
            }
        }
        if (usb || dash) && digit && dash {
            return Some((x, y));
        }
        i = i + 1;
    }
    None
}

pub open spec fn words_view(v: Seq<Vec<u8>>) -> Seq<Seq<u8>> {
    v.map_values(|w: Vec<u8>| w@)
}

/// Device words of recent USB timeouts in the text of a kernel log.
fn check_usb_timeouts(log: Option<&[u8]>) -> (r: Vec<Vec<u8>>)
    ensures
        words_view(r@) == log_timeouts(read_view(log)),
{
    let mut out: Vec<Vec<u8>> = Vec::new();
    match log {
        None => {
            assert(words_view(out@) =~= log_timeouts(read_view(log)));
            out
        },
        Some(c) => {
            let text = text_from_bytes(c);
            let low = lowercase(text.as_str());
            let s = low.as_str().as_bytes();
            let ls = split_lines(s);
            let ghost all = lines(s@);
            let usb: [u8; 3] = [117, 115, 98];
            let timeout: [u8; 7] = [116, 105, 109, 101, 111, 117, 116];
            assert(usb@ =~= "usb"@.map_values(|c: char| c as u8)) by {
                reveal_strlit("usb");
            }
            assert(timeout@ =~= "timeout"@.map_values(|c: char| c as u8)) by {
                reveal_strlit("timeout");
            }
            let mut k: usize = 0;
            assert(words_view(out@) =~= timeout_words(s@, all.subrange(0, 0)));
            while k < ls.len()
                invariant
                    k <= ls@.len() == all.len(),
                    all == lines(s@),
                    s@ == lowered_log(c@),
                    usb@ == "usb"@.map_values(|c: char| c as u8),
                    timeout@ == "timeout"@.map_values(|c: char| c as u8),
                    forall|j: int| 0 <= j < ls@.len() ==> (#[trigger] ls@[j]).0 == all[j].0 && ls@[j].1 == all[j].1,
                    forall|j: int| 0 <= j < ls@.len() ==> (#[trigger] ls@[j]).0 <= ls@[j].1 <= s@.len(),
                    words_view(out@) == timeout_words(s@, all.subrange(0, k as int)),
                decreases ls@.len() - k,
            {
                let (a, b) = ls[k];
                assert(all.subrange(0, k + 1).drop_last() =~= all.subrange(0, k as int));
                assert(all.subrange(0, k + 1).last() == (a as int, b as int));
                if contains_bytes(s, a, b, usb.as_slice()) && contains_bytes(s, a, b, timeout.as_slice()) {
                    match device_word_in(s, a, b) {
                        Some((x, y)) => {
                            out.push(copy_range(s, x, y));
                        },
                        None => {},
                    }
                }
                assert(words_view(out@) =~= timeout_words(s@, all.subrange(0, k + 1)));
                k = k + 1;
            }
            assert(all.subrange(0, k as int) =~= all);
            out
        },
    }
}

fn listed(words: &Vec<Vec<u8>>, id: &String) -> (r: bool)
    ensures
        r == words_view(words@).contains(encode_utf8(id@)),
{
    let b = id.as_str().as_bytes();
    let mut k: usize = 0;
    while k < words.len()
        invariant
            k <= words@.len(),
            b@ == encode_utf8(id@),
            forall|j: int| 0 <= j < k ==> words@[j]@ != b@,
        decreases words@.len() - k,
    {
        if bytes_equal(words[k].as_slice(), b) {
            assert(words_view(words@)[k as int] == b@);
            return true;
        }
        k = k + 1;
    }
    assert forall|j: int| 0 <= j < words_view(words@).len() implies words_view(words@)[j] != b@ by {
        assert(words_view(words@)[j] == words@[j]@);
    }
    false
}

fn bytes_equal(a: &[u8], b: &[u8]) -> (r: bool)
    ensures
        r == (a@ == b@),
{
    if a.len() != b.len() {
        return false;
    }
    let mut i: usize = 0;
    while i < a.len()
        invariant
            i <= a@.len() == b@.len(),
            a@.subrange(0, i as int) == b@.subrange(0, i as int),
        decreases a@.len() - i,
    {
        if a[i] != b[i] {
            return false;
        }
        assert(a@.subrange(0, i + 1) =~= a@.subrange(0, i as int).push(a@[i as int]));
        assert(b@.subrange(0, i + 1) =~= b@.subrange(0, i as int).push(b@[i as int]));
        i = i + 1;
    }
    assert(a@.subrange(0, i as int) =~= a@);
    assert(b@.subrange(0, i as int) =~= b@);
    true
}

fn read_device(e: &UsbEntry, words: &Vec<Vec<u8>>) -> (r: Option<UsbDevice>)
    ensures
        match (r, device_of(*e)) {
            (Some(d), Some(x)) => device_view(d) == (x.0, x.1, x.2, words_view(words@).contains(encode_utf8(x.0))),
            (None, None) => true,
            _ => false,
        },
{
    match (&e.vendor, &e.product) {
        (Some(v), Some(p)) => {
            let mut id = v.clone();
            id.append(":");
            id.append(p.as_str());
            let manufacturer = match &e.manufacturer {
                Some(m) => m.clone(),
                None => String::from_str("Unknown"),
            };
            let product = match &e.product_name {
                Some(n) => n.clone(),
                None => {
                    let mut n = String::from_str("USB Device ");
                    n.append(id.as_str());
                    n
                },
            };
            let has_timeout = listed(words, &id);
            Some(UsbDevice { id, manufacturer, product, has_timeout })
        },
        _ => None,
    }
}

/// USB sampler.
pub struct UsbCollector {}

impl UsbCollector {
    pub fn new() -> (r: UsbCollector) {
        UsbCollector {}
    }

    /// The devices of the device-tree entries, in order, flagged when a
    /// recent kernel log line reports a timeout for their id.
    pub fn collect(&self, entries: &Vec<UsbEntry>, log: Option<&[u8]>) -> (r: Vec<UsbDevice>)
        ensures
            devices_view(r@) == devices_of(entries@, log_timeouts(read_view(log))),
    {
        let words = check_usb_timeouts(log);
        let mut out: Vec<UsbDevice> = Vec::new();
        let mut i: usize = 0;
        assert(devices_view(out@) =~= devices_of(entries@.subrange(0, 0), log_timeouts(read_view(log))));
        while i < entries.len()
            invariant
                i <= entries@.len(),
                words_view(words@) == log_timeouts(read_view(log)),
                devices_view(out@) == devices_of(entries@.subrange(0, i as int), log_timeouts(read_view(log))),
            decreases entries@.len() - i,
        {
            assert(entries@.subrange(0, i + 1).drop_last() =~= entries@.subrange(0, i as int));
            match read_device(&entries[i], &words) {
                Some(d) => {
                    let ghost before = out@;
                    let ghost dv = device_view(d);
                    out.push(d);
                    assert(devices_view(out@) =~= devices_view(before).push(dv));
                },
                None => {},
            }
            i = i + 1;
        }
        assert(entries@.subrange(0, i as int) =~= entries@);
        out
    }

    /// The device path named in a kernel log line: its first word that holds
    /// a dash and a digit.
    pub fn extract_device_id(&self, line: &str) -> (r: Option<String>)
        ensures
            match device_word(encode_utf8(line@), tokens_from(encode_utf8(line@), 0, encode_utf8(line@).len() as int)) {
                Some(t) => r matches Some(w) && w@ == lossy_text(encode_utf8(line@).subrange(t.0, t.1)),
                None => r is None,
            },
    {
        let s = line.as_bytes();
        match device_word_in(s, 0, s.len()) {
            Some((x, y)) => {
                let w = copy_range(s, x, y);
                Some(text_from_bytes(w.as_slice()))
            },
            None => None,
        }
    }

    /// Whether the kernel log reports any recent USB timeout.
    pub fn has_recent_timeouts(&self, log: Option<&[u8]>) -> (r: bool)
        ensures
            r == (log_timeouts(read_view(log)).len() > 0),
    {
        let words = check_usb_timeouts(log);
        words.len() > 0
    }

    /// How many devices are flagged with a timeout.
    pub fn timeout_count(&self, entries: &Vec<UsbEntry>, log: Option<&[u8]>) -> (r: usize)
        ensures
            r == flagged_count(devices_of(entries@, log_timeouts(read_view(log)))),
    {
        let devices = self.collect(entries, log);
        let mut count: usize = 0;
        let mut i: usize = 0;
        while i < devices.len()
            invariant
                i <= devices@.len(),
                count == flagged_count(devices_view(devices@.subrange(0, i as int))),
                count <= i,
            decreases devices@.len() - i,
        {
            assert(devices_view(devices@.subrange(0, i + 1)).drop_last() =~= devices_view(devices@.subrange(0, i as int)));
            if devices[i].has_timeout {
                count = count + 1;
            }
            i = i + 1;
        }
        assert(devices@.subrange(0, i as int) =~= devices@);
        count
    }
}

} // verus!
