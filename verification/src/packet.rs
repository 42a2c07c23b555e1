//! Framing of a packed frame for the display device: one header byte in
//! front of exactly 640 frame bytes, zero-padded to the 642-byte packet the
//! device expects. A frame of any other size is rejected.

use vstd::prelude::*;

verus! {

/// Bytes of one packed frame the device accepts.
pub const FRAME_BYTES: usize = 640;

/// Bytes of one on-wire packet: header, frame, one byte of padding.
pub const PACKET_BYTES: usize = 642;

/// The packet's leading header byte.
pub const PACKET_HEADER: u8 = 0x61;

/// Why a frame could not be framed into a packet.
#[derive(Clone, Copy, PartialEq, Eq, Structural, Debug)]
pub enum FrameError {
    /// The frame did not hold exactly `FRAME_BYTES` bytes; carries the
    /// length it held instead.
    WrongSize(usize),
}

/// Builds the on-wire packet for one packed frame: the header byte, the 640
/// frame bytes, and a zero pad byte. Exactly the frames of the right size
/// are accepted; any other length is reported with its size.
pub fn frame_packet(frame: &Vec<u8>) -> (r: Result<Vec<u8>, FrameError>)
    ensures
        r is Ok <==> frame@.len() == FRAME_BYTES,
        r is Ok ==> ({
            let p = r.unwrap()@;
            &&& p.len() == PACKET_BYTES
            &&& p[0] == PACKET_HEADER
            &&& forall|i: int| 0 <= i < FRAME_BYTES ==> p[i + 1] == frame@[i]
            &&& p[641] == 0u8
        }),
        r is Err ==> r == Err::<Vec<u8>, FrameError>(FrameError::WrongSize(frame.len())),
{
    if frame.len() != FRAME_BYTES {
        return Err(FrameError::WrongSize(frame.len()));
    }
    let mut packet: Vec<u8> = vec![0u8; PACKET_BYTES];
    packet[0] = PACKET_HEADER;
    let mut i: usize = 0;
    while i < FRAME_BYTES
        invariant
            frame@.len() == FRAME_BYTES,
            packet@.len() == PACKET_BYTES,
            0 <= i <= FRAME_BYTES,
            packet@[0] == PACKET_HEADER,
            forall|j: int| 0 <= j < i ==> packet@[j + 1] == frame@[j],
            forall|j: int| i + 1 <= j < PACKET_BYTES ==> packet@[j] == 0u8,
        decreases FRAME_BYTES - i,
    {
        packet[i + 1] = frame[i];
        i = i + 1;
    }
    Ok(packet)
}


/// Index of the first occurrence of `c` in `s`, or `s.len()` when absent.
pub open spec fn find_from(s: Seq<char>, c: char) -> int
    decreases s.len(),
{
    if s.len() == 0 {
        0
    } else if s[0] == c {
        0
    } else {
        1 + find_from(s.drop_first(), c)
    }
}

/// `find_from` stays within the sequence's bounds.
pub proof fn lemma_find_from_bounds(s: Seq<char>, c: char)
    ensures
        0 <= find_from(s, c) <= s.len(),
    decreases s.len(),
{
    if s.len() > 0 && s[0] != c {
        lemma_find_from_bounds(s.drop_first(), c);
    }
}

/// `find_from` finds exactly the position before which `c` does not occur.
proof fn lemma_find_from_char(s: Seq<char>, c: char, e: int)
    requires
        0 <= e <= s.len(),
        forall|j: int| 0 <= j < e ==> s[j] != c,
        e < s.len() ==> s[e] == c,
    ensures
        find_from(s, c) == e,
    decreases s.len(),
{
    if s.len() > 0 && s[0] != c {
        lemma_find_from_char(s.drop_first(), c, e - 1);
    }
}

/// A line with its one optional trailing carriage return removed.
pub open spec fn strip_cr(line: Seq<char>) -> Seq<char> {
    if line.len() > 0 && line[line.len() - 1] == '\r' {
        line.drop_last()
    } else {
        line
    }
}

/// The lines of a text: split at every newline, a carriage return before the
/// newline stripped, the final line ending optional.
pub open spec fn spec_lines(s: Seq<char>) -> Seq<Seq<char>>
    decreases s.len(),
    via spec_lines_decreases
{
    if s.len() == 0 {
        Seq::<Seq<char>>::empty()
    } else {
        let e = find_from(s, '\n');
        if e == s.len() {
            seq![s]
        } else {
            seq![strip_cr(s.take(e))] + spec_lines(s.skip(e + 1))
        }
    }
}

#[via_fn]
proof fn spec_lines_decreases(s: Seq<char>) {
    lemma_find_from_bounds(s, '\n');
}

/// The value of one hexadecimal digit, either case.
pub open spec fn spec_hex_digit(c: char) -> Option<int> {
    match c {
        '0' => Some(0int),
        '1' => Some(1int),
        '2' => Some(2int),
        '3' => Some(3int),
        '4' => Some(4int),
        '5' => Some(5int),
        '6' => Some(6int),
        '7' => Some(7int),
        '8' => Some(8int),
        '9' => Some(9int),
        'a' | 'A' => Some(10int),
        'b' | 'B' => Some(11int),
        'c' | 'C' => Some(12int),
        'd' | 'D' => Some(13int),
        'e' | 'E' => Some(14int),
        'f' | 'F' => Some(15int),
        _ => None,
    }
}

/// Folds hex digits into an accumulator, left to right; a non-digit or a
/// value past `u16::MAX` fails.
pub open spec fn hex_fold(s: Seq<char>, acc: int) -> Option<int>
    decreases s.len(),
{
    if s.len() == 0 {
        Some(acc)
    } else {
        match spec_hex_digit(s[0]) {
            None => None,
            Some(d) => {
                let acc2 = acc * 16 + d;
                if acc2 > 0xffff {
                    None
                } else {
                    hex_fold(s.drop_first(), acc2)
                }
            },
        }
    }
}

/// A `u16` parsed from hexadecimal text: an optional leading plus sign, then
/// at least one hex digit, rejecting values past `u16::MAX`.
pub open spec fn spec_hex_u16(s: Seq<char>) -> Option<int> {
    let t = if s.len() > 0 && s[0] == '+' {
        s.drop_first()
    } else {
        s
    };
    if t.len() == 0 {
        None
    } else {
        hex_fold(t, 0)
    }
}

/// The second and third colon-separated fields of an id string, present only
/// when the string has at least three fields.
pub open spec fn spec_hid_fields(id: Seq<char>) -> Option<(Seq<char>, Seq<char>)> {
    let c1 = find_from(id, ':');
    if c1 == id.len() {
        None
    } else {
        let rest1 = id.skip(c1 + 1);
        let c2 = find_from(rest1, ':');
        if c2 == rest1.len() {
            None
        } else {
            let rest2 = rest1.skip(c2 + 1);
            Some((rest1.take(c2), rest2.take(find_from(rest2, ':'))))
        }
    }
}

/// Scans lines for the first `HID_ID=` line with at least three
/// colon-separated fields; its second and third fields are the vendor and
/// product ids in hex. A matching line whose ids do not parse fails the
/// whole scan; lines without a usable `HID_ID=` entry are skipped.
pub open spec fn spec_scan_hid(ls: Seq<Seq<char>>) -> Option<(u16, u16)>
    decreases ls.len(),
{
    if ls.len() == 0 {
        None
    } else {
        let line = ls[0];
        if line.len() >= 7 && line.take(7) == seq!['H', 'I', 'D', '_', 'I', 'D', '='] {
            match spec_hid_fields(line.skip(7)) {
                None => spec_scan_hid(ls.drop_first()),
                Some(fields) => match (spec_hex_u16(fields.0), spec_hex_u16(fields.1)) {
                    (Some(v), Some(p)) => Some((v as u16, p as u16)),
                    _ => None,
                },
            }
        } else {
            spec_scan_hid(ls.drop_first())
        }
    }
}

/// Vendor and product id parsed from a hidraw device's uevent text.
pub open spec fn spec_parse_hid_id(s: Seq<char>) -> Option<(u16, u16)> {
    spec_scan_hid(spec_lines(s))
}

/// First position in `[from, to)` where `v` holds `c`, or `to`.
fn find_in(v: &Vec<char>, from: usize, to: usize, c: char) -> (r: usize)
    requires
        from <= to <= v@.len(),
    ensures
        from <= r <= to,
        forall|j: int| from <= j < r ==> v@[j] != c,
        r < to ==> v@[r as int] == c,
        find_from(v@.subrange(from as int, to as int), c) == r - from,
{
    let mut i = from;
    while i < to
        invariant
            from <= i <= to <= v@.len(),
            forall|j: int| from <= j < i ==> v@[j] != c,
        decreases to - i,
    {
        if v[i] == c {
            proof {
                lemma_find_from_char(v@.subrange(from as int, to as int), c, i - from);
            }
            return i;
        }
        i = i + 1;
    }
    proof {
        lemma_find_from_char(v@.subrange(from as int, to as int), c, to - from);
    }
    to
}

/// The hex value of one digit character; see `spec_hex_digit`.
fn hex_digit(c: char) -> (r: Option<u16>)
    ensures
        r is Some <==> spec_hex_digit(c) is Some,
        r is Some ==> r.unwrap() as int == spec_hex_digit(c).unwrap(),
{
    match c {
        '0' => Some(0),
        '1' => Some(1),
        '2' => Some(2),
        '3' => Some(3),
        '4' => Some(4),
        '5' => Some(5),
        '6' => Some(6),
        '7' => Some(7),
        '8' => Some(8),
        '9' => Some(9),
        'a' | 'A' => Some(10),
        'b' | 'B' => Some(11),
        'c' | 'C' => Some(12),
        'd' | 'D' => Some(13),
        'e' | 'E' => Some(14),
        'f' | 'F' => Some(15),
        _ => None,
    }
}

/// Parses `v[from..to)` as a hexadecimal `u16`; see `spec_hex_u16`.
fn hex_u16_in(v: &Vec<char>, from: usize, to: usize) -> (r: Option<u16>)
    requires
        from <= to <= v@.len(),
    ensures
        r is Some <==> spec_hex_u16(v@.subrange(from as int, to as int)) is Some,
        r is Some ==> r.unwrap() as int == spec_hex_u16(v@.subrange(from as int, to as int)).unwrap(),
{
    let ghost full = v@.subrange(from as int, to as int);
    let start = if from < to && v[from] == '+' {
        from + 1
    } else {
        from
    };
    let ghost t = if full.len() > 0 && full[0] == '+' {
        full.drop_first()
    } else {
        full
    };
    proof {
        assert(full.len() > 0 ==> full[0] == v@[from as int]);
        assert(t =~= v@.subrange(start as int, to as int));
        assert(spec_hex_u16(full) == (if t.len() == 0 {
            None
        } else {
            hex_fold(t, 0)
        }));
    }
    if start == to {
        return None;
    }
    let mut acc: u16 = 0;
    let mut i = start;
    while i < to
        invariant
            from <= start <= i <= to <= v@.len(),
            t == v@.subrange(start as int, to as int),
            spec_hex_u16(v@.subrange(from as int, to as int)) == hex_fold(t, 0),
            hex_fold(t, 0) == hex_fold(v@.subrange(i as int, to as int), acc as int),
        decreases to - i,
    {
        proof {
            assert(v@.subrange(i as int, to as int)[0] == v@[i as int]);
            assert(v@.subrange(i as int, to as int).drop_first() =~= v@.subrange(
                i + 1,
                to as int,
            ));
        }
        match hex_digit(v[i]) {
            None => {
                return None;
            },
            Some(d) => {
                let acc2: u32 = (acc as u32) * 16 + (d as u32);
                if acc2 > 0xffff {
                    return None;
                }
                acc = acc2 as u16;
            },
        }
        i = i + 1;
    }
    proof {
        assert(v@.subrange(to as int, to as int) =~= Seq::<char>::empty());
    }
    Some(acc)
}

/// Vendor and product id from a hidraw device's uevent text: the second and
/// third colon-separated fields of its first usable `HID_ID=` line, parsed
/// as hexadecimal. A usable line whose fields do not parse makes the whole
/// parse fail, as the device cannot be identified.
#[verifier::rlimit(80)]
pub fn parse_hid_id(uevent: &str) -> (r: Option<(u16, u16)>)
    ensures
        r == spec_parse_hid_id(uevent@),
{
    let n = uevent.unicode_len();
    let mut chars: Vec<char> = Vec::new();
    let mut k: usize = 0;
    while k < n
        invariant
            n == uevent@.len(),
            0 <= k <= n,
            chars@ == uevent@.take(k as int),
        decreases n - k,
    {
        chars.push(uevent.get_char(k));
        proof {
            assert(chars@ =~= uevent@.take(k + 1));
        }
        k = k + 1;
    }
    proof {
        assert(chars@ =~= uevent@);
    }

    let mut pos: usize = 0;
    while pos < n
        invariant
            n == chars@.len(),
            chars@ == uevent@,
            0 <= pos <= n,
            spec_scan_hid(spec_lines(uevent@)) == spec_scan_hid(
                spec_lines(uevent@.skip(pos as int)),
            ),
        decreases n - pos,
    {
        let ghost s_rem = uevent@.skip(pos as int);
        let e = find_in(&chars, pos, n, '\n');
        proof {
            assert(s_rem.len() > 0);
            assert forall|j: int| 0 <= j < e - pos implies s_rem[j] != '\n' by {
                assert(s_rem[j] == chars@[pos + j]);
            }
            if e < n {
                assert(s_rem[e - pos] == chars@[e as int]);
            }
            lemma_find_from_char(s_rem, '\n', e - pos);
        }
        let line_end: usize = if e < n && e > pos && chars[e - 1] == '\r' {
            e - 1
        } else {
            e
        };
        let ghost line = if e == n {
            s_rem
        } else {
            strip_cr(s_rem.take(e - pos))
        };
        proof {
            assert(line =~= uevent@.subrange(pos as int, line_end as int));
            if e == n {
                assert(spec_lines(s_rem) =~= seq![line]);
            } else {
                assert(s_rem.skip(e - pos + 1) =~= uevent@.skip(e + 1));
                assert(strip_cr(s_rem.take(e - pos)) == line);
                assert(spec_lines(s_rem) == seq![line] + spec_lines(uevent@.skip(e + 1)));
            }
            assert(spec_lines(s_rem)[0] == line);
            assert(line.len() == line_end - pos);
        }
        let has_prefix = line_end - pos >= 7 && chars[pos] == 'H' && chars[pos + 1] == 'I'
            && chars[pos + 2] == 'D' && chars[pos + 3] == '_' && chars[pos + 4] == 'I' && chars[pos
            + 5] == 'D' && chars[pos + 6] == '=';
        proof {
            if line_end - pos >= 7 {
                assert forall|j: int| 0 <= j < 7 implies #[trigger] line.take(7)[j] == chars@[pos
                    + j] by {}
                if has_prefix {
                    assert(line.take(7) =~= seq!['H', 'I', 'D', '_', 'I', 'D', '=']);
                } else {
                    assert(line.take(7) != seq!['H', 'I', 'D', '_', 'I', 'D', '=']) by {
                        if line.take(7) == seq!['H', 'I', 'D', '_', 'I', 'D', '='] {
                            assert(line.take(7)[0] == 'H' && line.take(7)[1] == 'I' && line.take(
                                7,
                            )[2] == 'D' && line.take(7)[3] == '_' && line.take(7)[4] == 'I'
                                && line.take(7)[5] == 'D' && line.take(7)[6] == '=');
                        }
                    }
                }
            }
        }
        if has_prefix {
            let ghost id = line.skip(7);
            proof {
                assert(id =~= chars@.subrange(pos + 7, line_end as int));
            }
            let c1 = find_in(&chars, pos + 7, line_end, ':');
            proof {
                assert(find_from(id, ':') == c1 - (pos + 7));
            }
            if c1 < line_end {
                let ghost rest1 = id.skip(c1 - (pos + 7) + 1);
                proof {
                    assert(rest1 =~= chars@.subrange(c1 + 1, line_end as int));
                }
                let c2 = find_in(&chars, c1 + 1, line_end, ':');
                proof {
                    assert(find_from(rest1, ':') == c2 - (c1 + 1));
                }
                if c2 < line_end {
                    let ghost rest2 = rest1.skip(c2 - (c1 + 1) + 1);
                    proof {
                        assert(rest2 =~= chars@.subrange(c2 + 1, line_end as int));
                    }
                    let c3 = find_in(&chars, c2 + 1, line_end, ':');
                    proof {
                        assert(find_from(rest2, ':') == c3 - (c2 + 1));
                        assert(spec_hid_fields(id) == Some(
                            (rest1.take(c2 - (c1 + 1)), rest2.take(c3 - (c2 + 1))),
                        ));
                        assert(rest1.take(c2 - (c1 + 1)) =~= chars@.subrange(c1 + 1, c2 as int));
                        assert(rest2.take(c3 - (c2 + 1)) =~= chars@.subrange(c2 + 1, c3 as int));
                    }
                    let vid = hex_u16_in(&chars, c1 + 1, c2);
                    let pid = hex_u16_in(&chars, c2 + 1, c3);
                    return match (vid, pid) {
                        (Some(v), Some(p)) => Some((v, p)),
                        _ => None,
                    };
                }
            }
        }
        // This line holds no usable id entry; scan on past it.
        proof {
            assert(spec_scan_hid(spec_lines(s_rem)) == spec_scan_hid(
                spec_lines(s_rem).drop_first(),
            ));
            if e == n {
                assert(spec_lines(s_rem).drop_first() =~= Seq::<Seq<char>>::empty());
                assert(uevent@.skip(n as int) =~= Seq::<char>::empty());
            } else {
                assert(spec_lines(s_rem).drop_first() =~= spec_lines(uevent@.skip(e + 1)));
            }
        }
        if e == n {
            pos = n;
        } else {
            pos = e + 1;
        }
    }
    proof {
        assert(uevent@.skip(n as int) =~= Seq::<char>::empty());
    }
    None
}


/// The slash-separated segments of a path; an empty path has one empty
/// segment, like the host language's split.
pub open spec fn spec_segments(s: Seq<char>) -> Seq<Seq<char>>
    decreases s.len(),
    via spec_segments_decreases
{
    let e = find_from(s, '/');
    if e == s.len() {
        seq![s]
    } else {
        seq![s.take(e)] + spec_segments(s.skip(e + 1))
    }
}

#[via_fn]
proof fn spec_segments_decreases(s: Seq<char>) {
    lemma_find_from_bounds(s, '/');
}

/// The value of one decimal digit.
pub open spec fn spec_dec_digit(c: char) -> Option<int> {
    match c {
        '0' => Some(0int),
        '1' => Some(1int),
        '2' => Some(2int),
        '3' => Some(3int),
        '4' => Some(4int),
        '5' => Some(5int),
        '6' => Some(6int),
        '7' => Some(7int),
        '8' => Some(8int),
        '9' => Some(9int),
        _ => None,
    }
}

/// Folds decimal digits into an accumulator, left to right; a non-digit or a
/// value past `u8::MAX` fails.
pub open spec fn dec_fold(s: Seq<char>, acc: int) -> Option<int>
    decreases s.len(),
{
    if s.len() == 0 {
        Some(acc)
    } else {
        match spec_dec_digit(s[0]) {
            None => None,
            Some(d) => {
                let acc2 = acc * 10 + d;
                if acc2 > 255 {
                    None
                } else {
                    dec_fold(s.drop_first(), acc2)
                }
            },
        }
    }
}

/// A `u8` parsed from decimal text: an optional leading plus sign, then at
/// least one digit, rejecting values past `u8::MAX`.
pub open spec fn spec_dec_u8(s: Seq<char>) -> Option<int> {
    let t = if s.len() > 0 && s[0] == '+' {
        s.drop_first()
    } else {
        s
    };
    if t.len() == 0 {
        None
    } else {
        dec_fold(t, 0)
    }
}

/// The interface name for interface number `n`: `mi_` and the number,
/// zero-padded to at least two digits.
pub open spec fn spec_iface_name(n: int) -> Seq<char> {
    seq!['m', 'i', '_'] + (if n < 10 {
        seq!['0', crate::numfmt::digit_char(n)]
    } else {
        crate::numfmt::spec_decimal(n)
    })
}

/// Scans path segments for the first of the shape `left:right` whose left
/// part holds a dash and whose right part holds a dot: the text after the
/// dot is the interface number. A matching segment whose number does not
/// parse as a `u8` fails the whole scan.
pub open spec fn spec_scan_iface(segs: Seq<Seq<char>>) -> Option<Seq<char>>
    decreases segs.len(),
{
    if segs.len() == 0 {
        None
    } else {
        let seg = segs[0];
        let c = find_from(seg, ':');
        if c == seg.len() {
            spec_scan_iface(segs.drop_first())
        } else {
            let left = seg.take(c);
            let right = seg.skip(c + 1);
            if find_from(left, '-') == left.len() {
                spec_scan_iface(segs.drop_first())
            } else {
                let d = find_from(right, '.');
                if d == right.len() {
                    spec_scan_iface(segs.drop_first())
                } else {
                    match spec_dec_u8(right.skip(d + 1)) {
                        None => None,
                        Some(n) => Some(spec_iface_name(n)),
                    }
                }
            }
        }
    }
}

/// Interface name parsed from a device's canonical sysfs path.
pub open spec fn spec_interface_from_path(s: Seq<char>) -> Option<Seq<char>> {
    spec_scan_iface(spec_segments(s))
}

/// Parses `v[from..to)` as a decimal `u8`; see `spec_dec_u8`.
fn dec_u8_in(v: &Vec<char>, from: usize, to: usize) -> (r: Option<u8>)
    requires
        from <= to <= v@.len(),
    ensures
        r is Some <==> spec_dec_u8(v@.subrange(from as int, to as int)) is Some,
        r is Some ==> r.unwrap() as int == spec_dec_u8(v@.subrange(from as int, to as int)).unwrap(),
{
    let ghost full = v@.subrange(from as int, to as int);
    let start = if from < to && v[from] == '+' {
        from + 1
    } else {
        from
    };
    let ghost t = if full.len() > 0 && full[0] == '+' {
        full.drop_first()
    } else {
        full
    };
    proof {
        assert(full.len() > 0 ==> full[0] == v@[from as int]);
        assert(t =~= v@.subrange(start as int, to as int));
        assert(spec_dec_u8(full) == (if t.len() == 0 {
            None
        } else {
            dec_fold(t, 0)
        }));
    }
    if start == to {
        return None;
    }
    let mut acc: u8 = 0;
    let mut i = start;
    while i < to
        invariant
            from <= start <= i <= to <= v@.len(),
            t == v@.subrange(start as int, to as int),
            spec_dec_u8(v@.subrange(from as int, to as int)) == dec_fold(t, 0),
            dec_fold(t, 0) == dec_fold(v@.subrange(i as int, to as int), acc as int),
        decreases to - i,
    {
        proof {
            assert(v@.subrange(i as int, to as int)[0] == v@[i as int]);
            assert(v@.subrange(i as int, to as int).drop_first() =~= v@.subrange(
                i + 1,
                to as int,
            ));
        }
        let d: u32 = match v[i] {
            '0' => 0,
            '1' => 1,
            '2' => 2,
            '3' => 3,
            '4' => 4,
            '5' => 5,
            '6' => 6,
            '7' => 7,
            '8' => 8,
            '9' => 9,
            _ => {
                return None;
            },
        };
        let acc2: u32 = (acc as u32) * 10 + d;
        if acc2 > 255 {
            return None;
        }
        acc = acc2 as u8;
        i = i + 1;
    }
    proof {
        assert(v@.subrange(to as int, to as int) =~= Seq::<char>::empty());
    }
    Some(acc)
}

/// Interface name from a hidraw device's canonical sysfs path: the first
/// path segment of the shape `<bus>-<dev>:<cfg>.<iface>` yields `mi_` plus
/// the zero-padded interface number; a matching segment whose number does
/// not parse makes the whole parse fail.
#[verifier::rlimit(80)]
pub fn interface_from_path(path: &str) -> (r: Option<String>)
    ensures
        r is Some <==> spec_interface_from_path(path@) is Some,
        r is Some ==> r.unwrap()@ == spec_interface_from_path(path@).unwrap(),
{
    let n = path.unicode_len();
    let mut chars: Vec<char> = Vec::new();
    let mut k: usize = 0;
    while k < n
        invariant
            n == path@.len(),
            0 <= k <= n,
            chars@ == path@.take(k as int),
        decreases n - k,
    {
        chars.push(path.get_char(k));
        proof {
            assert(chars@ =~= path@.take(k + 1));
        }
        k = k + 1;
    }
    proof {
        assert(chars@ =~= path@);
    }

    let mut pos: usize = 0;
    while pos < n
        invariant
            n == chars@.len(),
            chars@ == path@,
            0 <= pos <= n,
            spec_scan_iface(spec_segments(path@)) == spec_scan_iface(
                spec_segments(path@.skip(pos as int)),
            ),
        decreases n - pos,
    {
        let ghost s_rem = path@.skip(pos as int);
        let e = find_in(&chars, pos, n, '/');
        proof {
            assert forall|j: int| 0 <= j < e - pos implies s_rem[j] != '/' by {
                assert(s_rem[j] == chars@[pos + j]);
            }
            if e < n {
                assert(s_rem[e - pos] == chars@[e as int]);
            }
            lemma_find_from_char(s_rem, '/', e - pos);
        }
        let ghost seg = s_rem.take(e - pos);
        proof {
            assert(seg =~= path@.subrange(pos as int, e as int));
            if e == n {
                assert(seg =~= s_rem);
                assert(spec_segments(s_rem) =~= seq![seg]);
            } else {
                assert(s_rem.skip(e - pos + 1) =~= path@.skip(e + 1));
                assert(spec_segments(s_rem) == seq![seg] + spec_segments(path@.skip(e + 1)));
            }
            assert(spec_segments(s_rem)[0] == seg);
        }
        let c = find_in(&chars, pos, e, ':');
        proof {
            assert(seg =~= chars@.subrange(pos as int, e as int));
            assert(find_from(seg, ':') == c - pos);
        }
        if c < e {
            let ghost left = seg.take(c - pos);
            let ghost right = seg.skip(c - pos + 1);
            proof {
                assert(left =~= chars@.subrange(pos as int, c as int));
                assert(right =~= chars@.subrange(c + 1, e as int));
            }
            let dash = find_in(&chars, pos, c, '-');
            proof {
                assert(find_from(left, '-') == dash - pos);
            }
            if dash < c {
                let dot = find_in(&chars, c + 1, e, '.');
                proof {
                    assert(find_from(right, '.') == dot - (c + 1));
                }
                if dot < e {
                    proof {
                        assert(right.skip(dot - (c + 1) + 1) =~= chars@.subrange(
                            dot + 1,
                            e as int,
                        ));
                    }
                    let iface = dec_u8_in(&chars, dot + 1, e);
                    match iface {
                        None => {
                            return None;
                        },
                        Some(num) => {
                            let mut out = String::new();
                            out.push('m');
                            out.push('i');
                            out.push('_');
                            if num < 10 {
                                out.push('0');
                            }
                            crate::numfmt::push_decimal(&mut out, num as u64);
                            proof {
                                if num < 10 {
                                    assert(out@ =~= spec_iface_name(num as int));
                                } else {
                                    assert(out@ =~= spec_iface_name(num as int));
                                }
                            }
                            return Some(out);
                        },
                    }
                }
            }
        }
        // This segment names no interface; scan on past it.
        proof {
            assert(spec_scan_iface(spec_segments(s_rem)) == spec_scan_iface(
                spec_segments(s_rem).drop_first(),
            ));
            if e == n {
                assert(spec_segments(s_rem).drop_first() =~= Seq::<Seq<char>>::empty());
            } else {
                assert(spec_segments(s_rem).drop_first() =~= spec_segments(path@.skip(e + 1)));
            }
        }
        if e == n {
            // The last segment was not usable either.
            return None;
        }
        pos = e + 1;
    }
    proof {
        let tail = path@.skip(n as int);
        assert(tail =~= Seq::<char>::empty());
        assert(find_from(tail, '/') == 0);
        assert(spec_segments(tail) == seq![tail]);
        assert(find_from(tail, ':') == 0);
        assert(seq![tail].drop_first() =~= Seq::<Seq<char>>::empty());
        assert(spec_scan_iface(Seq::<Seq<char>>::empty()) is None);
        assert(spec_scan_iface(spec_segments(tail)) is None);
    }
    None
}

} // verus!
