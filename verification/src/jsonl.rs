use vstd::prelude::*;
use crate::models::{Coord, PairRecord, TripletLossTrainingLine};

verus! {

/// Row-oriented output: one JSON object per record, newline-terminated.
///
/// Records hold fixed-point values, so every field is a plain decimal
/// number: coordinates carry six fraction digits (microdegrees), durations
/// are whole milliseconds. No field needs escaping.

/// The character of one decimal digit.
pub open spec fn digit_char(d: int) -> char {
    if d == 0 {
        '0'
    } else if d == 1 {
        '1'
    } else if d == 2 {
        '2'
    } else if d == 3 {
        '3'
    } else if d == 4 {
        '4'
    } else if d == 5 {
        '5'
    } else if d == 6 {
        '6'
    } else if d == 7 {
        '7'
    } else if d == 8 {
        '8'
    } else {
        '9'
    }
}

/// The decimal digits of a non-negative integer, most significant first.
pub open spec fn dec_str(n: int) -> Seq<char>
    decreases n,
{
    if n < 10 {
        seq![digit_char(n)]
    } else {
        dec_str(n / 10).push(digit_char(n % 10))
    }
}

/// Six zero-padded fraction digits of a microdegree remainder.
pub open spec fn frac6_str(f: int) -> Seq<char> {
    seq![
        digit_char(f / 100_000),
        digit_char((f / 10_000) % 10),
        digit_char((f / 1_000) % 10),
        digit_char((f / 100) % 10),
        digit_char((f / 10) % 10),
        digit_char(f % 10),
    ]
}

/// A microdegree value as a signed decimal with six fraction digits.
pub open spec fn microdeg_str(v: int) -> Seq<char> {
    if v < 0 {
        seq!['-'] + dec_str((-v) / 1_000_000) + seq!['.'] + frac6_str((-v) % 1_000_000)
    } else {
        dec_str(v / 1_000_000) + seq!['.'] + frac6_str(v % 1_000_000)
    }
}

/// A coordinate as a JSON object.
pub open spec fn coord_json(c: Coord) -> Seq<char> {
    "{\"lat\":"@ + microdeg_str(c.lat as int) + ",\"lon\":"@ + microdeg_str(c.lon as int) + "}"@
}

/// A triplet record as one newline-terminated JSON line.
pub open spec fn triplet_json(t: TripletLossTrainingLine) -> Seq<char> {
    "{\"anchor\":"@ + coord_json(t.anchor) + ",\"positive\":"@ + coord_json(t.positive)
        + ",\"negative\":"@ + coord_json(t.negative) + ",\"positive_time\":"@ + dec_str(
        t.positive_time as int,
    ) + ",\"negative_time\":"@ + dec_str(t.negative_time as int) + "}\n"@
}

/// A pair record as one newline-terminated JSON line.
pub open spec fn pair_json(p: PairRecord) -> Seq<char> {
    "{\"source\":"@ + coord_json(p.source) + ",\"destination\":"@ + coord_json(p.destination)
        + ",\"time\":"@ + dec_str(p.time as int) + "}\n"@
}

/// Append one digit character.
fn push_digit(s: &mut String, d: u64)
    requires
        d < 10,
    ensures
        final(s)@ == old(s)@.push(digit_char(d as int)),
{
    if d == 0 {
        s.append("0");
    } else if d == 1 {
        s.append("1");
    } else if d == 2 {
        s.append("2");
    } else if d == 3 {
        s.append("3");
    } else if d == 4 {
        s.append("4");
    } else if d == 5 {
        s.append("5");
    } else if d == 6 {
        s.append("6");
    } else if d == 7 {
        s.append("7");
    } else if d == 8 {
        s.append("8");
    } else {
        s.append("9");
    }
    proof {
        reveal_strlit("0");
        reveal_strlit("1");
        reveal_strlit("2");
        reveal_strlit("3");
        reveal_strlit("4");
        reveal_strlit("5");
        reveal_strlit("6");
        reveal_strlit("7");
        reveal_strlit("8");
        reveal_strlit("9");
        assert(s@ =~= old(s)@.push(digit_char(d as int)));
    }
}

/// A non-negative integer as decimal text.
pub fn u64_string(n: u64) -> (r: String)
    ensures
        r@ == dec_str(n as int),
    decreases n,
{
    if n < 10 {
        let mut s = String::new();
        push_digit(&mut s, n);
        proof {
            assert(s@ =~= dec_str(n as int));
        }
        s
    } else {
        let mut s = u64_string(n / 10);
        push_digit(&mut s, n % 10);
        proof {
            assert(s@ =~= dec_str(n as int));
        }
        s
    }
}

/// A microdegree value as signed decimal text with six fraction digits.
pub fn microdeg_string(v: i64) -> (r: String)
    requires
        v > i64::MIN,
    ensures
        r@ == microdeg_str(v as int),
{
    let mut s = String::new();
    let m: u64 = if v < 0 {
        proof {
            reveal_strlit("-");
        }
        s.append("-");
        (-v) as u64
    } else {
        v as u64
    };
    let ip: u64 = m / 1_000_000;
    let fp: u64 = m % 1_000_000;
    let ips = u64_string(ip);
    s.append(ips.as_str());
    proof {
        reveal_strlit(".");
    }
    s.append(".");
    push_digit(&mut s, fp / 100_000);
    push_digit(&mut s, (fp / 10_000) % 10);
    push_digit(&mut s, (fp / 1_000) % 10);
    push_digit(&mut s, (fp / 100) % 10);
    push_digit(&mut s, (fp / 10) % 10);
    push_digit(&mut s, fp % 10);
    proof {
        assert(s@ =~= microdeg_str(v as int));
    }
    s
}

/// Serialize one triplet record as its JSON line.
pub fn triplet_json_line(t: &TripletLossTrainingLine) -> (r: String)
    requires
        t.anchor.lat > i64::MIN,
        t.anchor.lon > i64::MIN,
        t.positive.lat > i64::MIN,
        t.positive.lon > i64::MIN,
        t.negative.lat > i64::MIN,
        t.negative.lon > i64::MIN,
    ensures
        r@ == triplet_json(*t),
{
    let mut s = String::new();
    s.append("{\"anchor\":");
    append_coord(&mut s, &t.anchor);
    s.append(",\"positive\":");
    append_coord(&mut s, &t.positive);
    s.append(",\"negative\":");
    append_coord(&mut s, &t.negative);
    s.append(",\"positive_time\":");
    let pt = u64_string(t.positive_time);
    s.append(pt.as_str());
    s.append(",\"negative_time\":");
    let nt = u64_string(t.negative_time);
    s.append(nt.as_str());
    s.append("}\n");
    proof {
        assert(s@ =~= triplet_json(*t));
    }
    s
}

/// Serialize one pair record as its JSON line.
pub fn pair_json_line(p: &PairRecord) -> (r: String)
    requires
        p.source.lat > i64::MIN,
        p.source.lon > i64::MIN,
        p.destination.lat > i64::MIN,
        p.destination.lon > i64::MIN,
    ensures
        r@ == pair_json(*p),
{
    let mut s = String::new();
    s.append("{\"source\":");
    append_coord(&mut s, &p.source);
    s.append(",\"destination\":");
    append_coord(&mut s, &p.destination);
    s.append(",\"time\":");
    let ts = u64_string(p.time);
    s.append(ts.as_str());
    s.append("}\n");
    proof {
        assert(s@ =~= pair_json(*p));
    }
    s
}

/// Append a coordinate's JSON object.
fn append_coord(s: &mut String, c: &Coord)
    requires
        c.lat > i64::MIN,
        c.lon > i64::MIN,
    ensures
        final(s)@ == old(s)@ + coord_json(*c),
{
    s.append("{\"lat\":");
    let lat = microdeg_string(c.lat);
    s.append(lat.as_str());
    s.append(",\"lon\":");
    let lon = microdeg_string(c.lon);
    s.append(lon.as_str());
    s.append("}");
    proof {
        assert(s@ =~= old(s)@ + coord_json(*c));
    }
}

} // verus!
