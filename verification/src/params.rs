//! Parameters in the form of a query: names and values, percent-encoded.

use vstd::hash_map::StringHashMap;
use vstd::prelude::*;
use vstd::string::*;
use vstd::utf8::*;

use crate::codec::{by_text, string_from_utf8};
use crate::numbers::{lemma_within, number_of, parse_number, parse_positive, positive_of};
use crate::strings::{cut_at, split_once, trim, trimmed};
use crate::text::{pieces, same_text, split_text, texts};

verus! {

/// The value of a hexadecimal digit in ASCII.
pub open spec fn hex_digit(b: u8) -> Option<int> {
    if 48 <= b <= 57 {
        Some(b - 48)
    } else if 97 <= b <= 102 {
        Some(b - 87)
    } else if 65 <= b <= 70 {
        Some(b - 55)
    } else {
        None
    }
}

/// The byte that two characters stand for: two digits, or one behind a plus sign.
pub open spec fn hex_pair(a: u8, b: u8) -> Option<u8> {
    match (hex_digit(a), hex_digit(b)) {
        (Some(x), Some(y)) => Some((16 * x + y) as u8),
        (None, Some(y)) => if a == 43 {
            Some(y as u8)
        } else {
            None
        },
        _ => None,
    }
}

/// The bytes that encoded ones stand for, from `i` on, behind `out`.
pub open spec fn decoded(bytes: Seq<u8>, i: nat, out: Seq<u8>) -> Result<Seq<u8>, Seq<char>>
    decreases bytes.len() - i,
{
    if i >= bytes.len() {
        Ok(out)
    } else {
        let b = bytes[i as int];
        if b == 43 {
            decoded(bytes, i + 1, out.push(32))
        } else if b == 37 {
            if i + 2 < bytes.len() {
                match hex_pair(bytes[i as int + 1], bytes[i as int + 2]) {
                    Some(v) => decoded(bytes, i + 3, out.push(v)),
                    None => Err("invalid percent encoding"@),
                }
            } else {
                Err("truncated percent encoding"@)
            }
        } else {
            decoded(bytes, i + 1, out.push(b))
        }
    }
}

/// The text that an encoded one stands for.
pub open spec fn component(s: Seq<char>) -> Result<Seq<char>, Seq<char>> {
    match decoded(encode_utf8(s), 0, Seq::empty()) {
        Err(e) => Err(e),
        Ok(bytes) => if valid_utf8(bytes) {
            Ok(decode_utf8(bytes))
        } else {
            Err("query value is not valid utf-8"@)
        },
    }
}

pub open spec fn text_view(r: Result<String, String>) -> Result<Seq<char>, Seq<char>> {
    match r {
        Ok(s) => Ok(s@),
        Err(e) => Err(e@),
    }
}

fn digit_in_hex(b: u8) -> (r: Option<u8>)
    ensures
        r is Some == hex_digit(b) is Some,
        r matches Some(v) ==> v == hex_digit(b)->0 && v < 16,
{
    if 48 <= b && b <= 57 {
        Some(b - 48)
    } else if 97 <= b && b <= 102 {
        Some(b - 87)
    } else if 65 <= b && b <= 70 {
        Some(b - 55)
    } else {
        None
    }
}

fn byte_in_hex(a: u8, b: u8) -> (r: Option<u8>)
    ensures
        r == hex_pair(a, b),
{
    let low: u8 = match digit_in_hex(b) {
        Some(v) => v,
        None => {
            return None;
        },
    };
    match digit_in_hex(a) {
        Some(high) => Some(16 * high + low),
        None => if a == 43 {
            Some(low)
        } else {
            None
        },
    }
}

pub fn decode_url_component(s: &str) -> (r: Result<String, String>)
    ensures
        text_view(r) == component(s@),
{
    let bytes = s.as_bytes();
    let total: usize = bytes.len();
    let mut out: Vec<u8> = Vec::new();
    let mut i: usize = 0;
    assert(out@ =~= Seq::empty());
    while i < total
        invariant
            total == bytes@.len(),
            bytes@ == encode_utf8(s@),
            i <= total,
            decoded(bytes@, 0, Seq::empty()) == decoded(bytes@, i as nat, out@),
        decreases total - i,
    {
        let b: u8 = bytes[i];
        if b == 43 {
            out.push(32);
            i = i + 1;
        } else if b == 37 {
            if total - i > 2 {
                match byte_in_hex(bytes[i + 1], bytes[i + 2]) {
                    Some(v) => {
                        out.push(v);
                        i = i + 3;
                    },
                    None => {
                        return Err("invalid percent encoding".to_string());
                    },
                }
            } else {
                return Err("truncated percent encoding".to_string());
            }
        } else {
            out.push(b);
            i = i + 1;
        }
    }
    match string_from_utf8(out) {
        Ok(s) => Ok(s),
        Err(_) => Err("query value is not valid utf-8".to_string()),
    }
}

/// Named values.
pub struct Params {
    pub map: StringHashMap<String>,
}

impl View for Params {
    type V = Map<Seq<char>, Seq<char>>;

    open spec fn view(&self) -> Map<Seq<char>, Seq<char>> {
        self.map@.map_values(|v: String| v@)
    }
}

impl Params {
    pub fn new() -> (p: Self)
        ensures
            p@ == Map::<Seq<char>, Seq<char>>::empty(),
    {
        let p = Params { map: StringHashMap::new() };
        assert(p@ =~= Map::empty());
        p
    }

    /// Sets a value; a name that is there already gets the new one.
    pub fn set(&mut self, name: String, value: String)
        ensures
            final(self)@ == old(self)@.insert(name@, value@),
    {
        self.map.insert(name, value);
        assert(self@ =~= old(self)@.insert(name@, value@));
    }

    pub fn get(&self, name: &str) -> (r: Option<String>)
        ensures
            match r {
                Some(v) => self@.dom().contains(name@) && v@ == self@[name@],
                None => !self@.dom().contains(name@),
            },
    {
        match self.map.get(name) {
            Some(v) => Some(v.clone()),
            None => None,
        }
    }
}

/// The value of a parameter, where it is given.
pub open spec fn value_of(p: Map<Seq<char>, Seq<char>>, name: Seq<char>) -> Option<Seq<char>> {
    if p.dom().contains(name) {
        Some(p[name])
    } else {
        None
    }
}

/// A part of a query: a name, and behind `=` its value.
pub open spec fn name_and_value(part: Seq<char>) -> (Seq<char>, Seq<char>) {
    match cut_at(part, "="@) {
        Some(pair) => pair,
        None => (part, ""@),
    }
}

/// The parameters in the parts of a query from `i` on, added to `p`.
pub open spec fn params_from(
    parts: Seq<Seq<char>>,
    i: nat,
    p: Map<Seq<char>, Seq<char>>,
) -> Result<Map<Seq<char>, Seq<char>>, Seq<char>>
    decreases parts.len() - i,
{
    if i >= parts.len() {
        Ok(p)
    } else if parts[i as int].len() == 0 {
        params_from(parts, i + 1, p)
    } else {
        let (name, value) = name_and_value(parts[i as int]);
        match component(name) {
            Err(e) => Err(e),
            Ok(k) => match component(value) {
                Err(e) => Err(e),
                Ok(v) => params_from(parts, i + 1, p.insert(k, v)),
            },
        }
    }
}

/// The parameters of a query.
pub open spec fn query_params(s: Seq<char>) -> Result<Map<Seq<char>, Seq<char>>, Seq<char>> {
    params_from(pieces(s, '&'), 0, Map::empty())
}

pub open spec fn params_view(r: Result<Params, String>) -> Result<
    Map<Seq<char>, Seq<char>>,
    Seq<char>,
> {
    match r {
        Ok(p) => Ok(p@),
        Err(e) => Err(e@),
    }
}

pub fn parse_params(s: &str) -> (r: Result<Params, String>)
    ensures
        params_view(r) == query_params(s@),
{
    let parts = split_text(s, '&');
    let ghost views = texts(parts@);
    let total: usize = parts.len();
    let mut p = Params::new();
    let mut i: usize = 0;
    while i < total
        invariant
            total == parts@.len(),
            views == texts(parts@),
            views == pieces(s@, '&'),
            i <= total,
            query_params(s@) == params_from(views, i as nat, p@),
        decreases total - i,
    {
        assert(views[i as int] == parts@[i as int]@);
        let part = parts[i].as_str();
        if part.unicode_len() > 0 {
            let (name, value) = match split_once(part, "=") {
                Some(pair) => pair,
                None => (part.to_string(), "".to_string()),
            };
            assert((name@, value@) == name_and_value(part@));
            let k = match decode_url_component(name.as_str()) {
                Ok(k) => k,
                Err(e) => {
                    return Err(e);
                },
            };
            let v = match decode_url_component(value.as_str()) {
                Ok(v) => v,
                Err(e) => {
                    return Err(e);
                },
            };
            p.set(k, v);
        }
        i = i + 1;
    }
    Ok(p)
}

/// What is said of a parameter that cannot be read.
pub open spec fn invalid_param(name: Seq<char>, why: Seq<char>) -> Seq<char> {
    "invalid "@ + name + ": "@ + why
}

/// A number among the parameters. A parameter that is not to be zero is `positive`; where
/// blank ones do not count, `skip_blank` holds.
pub open spec fn number_param(
    p: Map<Seq<char>, Seq<char>>,
    name: Seq<char>,
    max: nat,
    positive: bool,
    skip_blank: bool,
) -> Result<Option<nat>, Seq<char>> {
    match value_of(p, name) {
        None => Ok(None),
        Some(v) => if skip_blank && trimmed(v).len() == 0 {
            Ok(None)
        } else {
            match if positive {
                positive_of(v, 10, max)
            } else {
                number_of(v, 10, max)
            } {
                Ok(n) => Ok(Some(n)),
                Err(e) => Err(invalid_param(name, e.message())),
            }
        },
    }
}

pub open spec fn number_view(r: Result<Option<u64>, String>) -> Result<Option<nat>, Seq<char>> {
    match r {
        Ok(Some(n)) => Ok(Some(n as nat)),
        Ok(None) => Ok(None),
        Err(e) => Err(e@),
    }
}

pub fn param_parse(params: &Params, name: &str, max: u64, positive: bool, skip_blank: bool) -> (r:
    Result<Option<u64>, String>)
    ensures
        number_view(r) == number_param(params@, name@, max as nat, positive, skip_blank),
        r matches Ok(Some(n)) ==> n <= max,
{
    let v = match params.get(name) {
        Some(v) => v,
        None => {
            return Ok(None);
        },
    };
    if skip_blank && trim(v.as_str()).as_str().unicode_len() == 0 {
        return Ok(None);
    }
    let parsed = if positive {
        parse_positive(v.as_str(), 10, max)
    } else {
        parse_number(v.as_str(), 10, max)
    };
    proof {
        lemma_within(v@, 10, max as nat);
    }
    match parsed {
        Ok(n) => Ok(Some(n)),
        Err(e) => Err("invalid ".to_string().concat(name).concat(": ").concat(e.text())),
    }
}

/// A yes or a no among the parameters.
pub open spec fn flag_param(p: Map<Seq<char>, Seq<char>>, name: Seq<char>) -> Result<
    Option<bool>,
    Seq<char>,
> {
    match value_of(p, name) {
        None => Ok(None),
        Some(v) => if v == "1"@ || v == "true"@ || v == "yes"@ || v == "on"@ {
            Ok(Some(true))
        } else if v == "0"@ || v == "false"@ || v == "no"@ || v == "off"@ {
            Ok(Some(false))
        } else {
            Err(invalid_param(name, "expected boolean"@))
        },
    }
}

pub fn param_bool(params: &Params, name: &str) -> (r: Result<Option<bool>, String>)
    ensures
        by_text(r) == flag_param(params@, name@),
{
    let v = match params.get(name) {
        Some(v) => v,
        None => {
            return Ok(None);
        },
    };
    let v = v.as_str();
    if same_text(v, "1") || same_text(v, "true") || same_text(v, "yes") || same_text(v, "on") {
        Ok(Some(true))
    } else if same_text(v, "0") || same_text(v, "false") || same_text(v, "no") || same_text(
        v,
        "off",
    ) {
        Ok(Some(false))
    } else {
        Err("invalid ".to_string().concat(name).concat(": ").concat("expected boolean"))
    }
}

} // verus!
