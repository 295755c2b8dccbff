use crate::tools::{
    decode_outcome, is_encoding_rs, Charset,classify_window, window_all, Window, WINDOW};
use vstd::prelude::*;

verus! {

/// State of the GB18030 automaton: the bytes read so far of the current unit.
#[derive(Clone, Copy, PartialEq, Eq, Structural)]
pub enum State {
    Start,
    ExpectingSecondByte(u8),
    ExpectingThirdByte(u8, u8),
    ExpectingFourthByte(u8, u8, u8),
}

/// The big-endian value of a four-byte unit.
pub open spec fn four_byte_value(b1: u8, b2: u8, b3: u8, b4: u8) -> int {
    b1 * 0x1000000 + b2 * 0x10000 + b3 * 0x100 + b4
}

/// Four-byte values that GB18030 assigns.
pub open spec fn four_byte_assigned(v: int) -> bool {
    (0x81308130 <= v <= 0x8431A439) || (0x90308130 <= v <= 0xE3329A35)
}

/// Validity of `s` from position `i` on, for GB18030: ASCII bytes, two-byte
/// units and four-byte units in the assigned value ranges.
pub open spec fn gb18030_valid_from(s: Seq<u8>, i: int) -> bool
    decreases s.len() - i,
{
    if i >= s.len() {
        true
    } else if s[i] <= 0x7F {
        gb18030_valid_from(s, i + 1)
    } else if 0x81 <= s[i] <= 0xFE && i + 1 < s.len() {
        if (0x40 <= s[i + 1] <= 0x7E) || (0x80 <= s[i + 1] <= 0xFE) {
            gb18030_valid_from(s, i + 2)
        } else if 0x30 <= s[i + 1] <= 0x39 && i + 3 < s.len() {
            0x81 <= s[i + 2] <= 0xFE && 0x30 <= s[i + 3] <= 0x39 && four_byte_assigned(
                four_byte_value(s[i], s[i + 1], s[i + 2], s[i + 3]),
            ) && gb18030_valid_from(s, i + 4)
        } else {
            false
        }
    } else {
        false
    }
}

/// The buffer is well-formed GB18030.
pub open spec fn gb18030_valid(s: Seq<u8>) -> bool {
    gb18030_valid_from(s, 0)
}

/// `s` is exactly one valid GB18030 unit: an ASCII byte, a two-byte unit or
/// an assigned four-byte unit.
pub open spec fn gb18030_unit(s: Seq<u8>) -> bool {
    (s.len() == 1 && s[0] <= 0x7F) || (s.len() == 2 && 0x81 <= s[0] <= 0xFE && ((0x40 <= s[1]
        <= 0x7E) || (0x80 <= s[1] <= 0xFE))) || (s.len() == 4 && 0x81 <= s[0] <= 0xFE && 0x30
        <= s[1] <= 0x39 && 0x81 <= s[2] <= 0xFE && 0x30 <= s[3] <= 0x39 && four_byte_assigned(
        four_byte_value(s[0], s[1], s[2], s[3]),
    ))
}

/// `s` holds the first bytes of a unit, possibly none, that the automaton
/// has read without rejecting them and that need more bytes to end.
pub open spec fn gb18030_partial(s: Seq<u8>) -> bool {
    s.len() == 0 || (s.len() == 1 && 0x81 <= s[0] <= 0xFE) || (s.len() == 2 && 0x81 <= s[0]
        <= 0xFE && 0x30 <= s[1] <= 0x39) || (s.len() == 3 && 0x81 <= s[0] <= 0xFE && 0x30 <= s[1]
        <= 0x39 && 0x81 <= s[2] <= 0xFE)
}

/// One transition of the automaton; `None` rejects.
pub open spec fn step(state: State, byte: u8) -> Option<State> {
    match state {
        State::Start => if byte <= 0x7F {
            Some(State::Start)
        } else if 0x81 <= byte <= 0xFE {
            Some(State::ExpectingSecondByte(byte))
        } else {
            None
        },
        State::ExpectingSecondByte(b1) => if (0x40 <= byte <= 0x7E) || (0x80 <= byte <= 0xFE) {
            Some(State::Start)
        } else if 0x30 <= byte <= 0x39 {
            Some(State::ExpectingThirdByte(b1, byte))
        } else {
            None
        },
        State::ExpectingThirdByte(b1, b2) => if 0x81 <= byte <= 0xFE {
            Some(State::ExpectingFourthByte(b1, b2, byte))
        } else {
            None
        },
        State::ExpectingFourthByte(b1, b2, b3) => if 0x30 <= byte <= 0x39
            && four_byte_assigned(four_byte_value(b1, b2, b3, byte)) {
            Some(State::Start)
        } else {
            None
        },
    }
}

/// `state` holds the bytes `s[u..i]` of a unit that starts at `u`.
pub open spec fn state_at(s: Seq<u8>, u: int, i: int, state: State) -> bool {
    0 <= u <= i <= s.len() && match state {
        State::Start => i == u,
        State::ExpectingSecondByte(b1) => i == u + 1 && s[u] == b1 && 0x81 <= b1 <= 0xFE,
        State::ExpectingThirdByte(b1, b2) => i == u + 2 && s[u] == b1 && s[u + 1] == b2 && 0x81
            <= b1 <= 0xFE && 0x30 <= b2 <= 0x39,
        State::ExpectingFourthByte(b1, b2, b3) => i == u + 3 && s[u] == b1 && s[u + 1] == b2
            && s[u + 2] == b3 && 0x81 <= b1 <= 0xFE && 0x30 <= b2 <= 0x39 && 0x81 <= b3 <= 0xFE,
    }
}

/// A transition of the automaton follows the definition of validity.
proof fn lemma_step(s: Seq<u8>, u: int, i: int, state: State)
    requires
        state_at(s, u, i, state),
        i < s.len(),
    ensures
        step(state, s[i]) is None ==> !gb18030_valid_from(s, u),
        step(state, s[i]) == Some(State::Start) ==> gb18030_valid_from(s, u)
            == gb18030_valid_from(s, i + 1),
        step(state, s[i]) == Some(State::Start) ==> gb18030_unit(s.subrange(u, i + 1)),
        step(state, s[i]) matches Some(next) ==> (!(next is Start) ==> state_at(s, u, i + 1, next)),
{
}

/// What the automaton has read of a buffer it reads the same in any longer
/// buffer that starts with it.
proof fn lemma_state_at_extend(s: Seq<u8>, t: Seq<u8>, u: int, i: int, state: State)
    requires
        state_at(s, u, i, state),
    ensures
        state_at(s + t, u, i, state),
{
    if u < i {
        assert((s + t)[u] == s[u]);
    }
    if u + 1 < i {
        assert((s + t)[u + 1] == s[u + 1]);
    }
    if u + 2 < i {
        assert((s + t)[u + 2] == s[u + 2]);
    }
}

/// A unit left unfinished at the end of the buffer is a partial unit.
proof fn lemma_partial(s: Seq<u8>, u: int, state: State)
    requires
        state_at(s, u, s.len() as int, state),
    ensures
        gb18030_partial(s.subrange(u, s.len() as int)),
{
}

/// A unit left unfinished at the end of the buffer makes it invalid.
proof fn lemma_unfinished(s: Seq<u8>, u: int, state: State)
    requires
        state_at(s, u, s.len() as int, state),
        !(state is Start),
    ensures
        !gb18030_valid_from(s, u),
{
}

fn gb18030_step(state: State, byte: u8) -> (r: Option<State>)
    ensures
        r == step(state, byte),
{
    match state {
        State::Start => {
            if byte <= 0x7F {
                Some(State::Start)
            } else if 0x81 <= byte && byte <= 0xFE {
                Some(State::ExpectingSecondByte(byte))
            } else {
                None
            }
        },
        State::ExpectingSecondByte(b1) => {
            if (0x40 <= byte && byte <= 0x7E) || (0x80 <= byte && byte <= 0xFE) {
                Some(State::Start)
            } else if 0x30 <= byte && byte <= 0x39 {
                Some(State::ExpectingThirdByte(b1, byte))
            } else {
                None
            }
        },
        State::ExpectingThirdByte(b1, b2) => {
            if 0x81 <= byte && byte <= 0xFE {
                Some(State::ExpectingFourthByte(b1, b2, byte))
            } else {
                None
            }
        },
        State::ExpectingFourthByte(b1, b2, b3) => {
            if 0x30 <= byte && byte <= 0x39 {
                let val: u32 = (b1 as u32) * 0x1000000 + (b2 as u32) * 0x10000 + (b3 as u32)
                    * 0x100 + (byte as u32);
                if (0x81308130 <= val && val <= 0x8431A439) || (0x90308130 <= val && val
                    <= 0xE3329A35) {
                    Some(State::Start)
                } else {
                    None
                }
            } else {
                None
            }
        },
    }
}

/// Runs the automaton over `data[start..]`.
fn gb18030_fsm_from(data: &[u8], start: usize) -> (r: bool)
    requires
        start <= data@.len(),
    ensures
        r == gb18030_valid_from(data@, start as int),
{
    let mut state = State::Start;
    let ghost mut u: int = start as int;
    let mut i: usize = start;
    while i < data.len()
        invariant
            start <= i <= data@.len(),
            state_at(data@, u, i as int, state),
            gb18030_valid_from(data@, start as int) == gb18030_valid_from(data@, u),
        decreases data@.len() - i,
    {
        proof {
            lemma_step(data@, u, i as int, state);
        }
        match gb18030_step(state, data[i]) {
            None => {
                return false;
            },
            Some(next) => {
                proof {
                    if next is Start {
                        u = i + 1;
                    }
                }
                state = next;
                i += 1;
            },
        }
    }
    proof {
        if !(state is Start) {
            lemma_unfinished(data@, u, state);
        }
    }
    state == State::Start
}

/// State machine: the buffer is well-formed GB18030.
pub fn is_gb18030_fsm(data: &[u8]) -> (r: bool)
    ensures
        r == gb18030_valid(data@),
{
    gb18030_fsm_from(data, 0)
}

/// Appending bytes after a well-formed GB18030 prefix leaves the walk at the
/// end of the prefix.
pub proof fn lemma_gb18030_concat(p: Seq<u8>, q: Seq<u8>, i: int)
    requires
        0 <= i <= p.len(),
        gb18030_valid_from(p, i),
    ensures
        gb18030_valid_from(p + q, i) == gb18030_valid_from(p + q, p.len() as int),
    decreases p.len() - i,
{
    if i < p.len() {
        let s = p + q;
        assert(s[i] == p[i]);
        if p[i] <= 0x7F {
            lemma_gb18030_concat(p, q, i + 1);
        } else {
            assert(s[i + 1] == p[i + 1]);
            if (0x40 <= p[i + 1] <= 0x7E) || (0x80 <= p[i + 1] <= 0xFE) {
                lemma_gb18030_concat(p, q, i + 2);
            } else {
                assert(s[i + 2] == p[i + 2] && s[i + 3] == p[i + 3]);
                lemma_gb18030_concat(p, q, i + 4);
            }
        }
    }
}

/// How the automaton ends on the unit that starts at a given position.
enum Resync {
    /// The unit is invalid, whatever follows the buffer.
    Invalid,
    /// The buffer ends inside the unit: more data is needed.
    Incomplete,
    /// The unit is valid and ends just before this position.
    Next(usize),
}

/// Runs the automaton over the one unit that starts at `current`.
fn gb18030_fallback(data: &[u8], current: usize) -> (r: Resync)
    requires
        current <= data@.len(),
    ensures
        r is Invalid ==> !gb18030_valid_from(data@, current as int),
        r is Invalid ==> forall|t: Seq<u8>|
            !#[trigger] gb18030_valid_from(data@ + t, current as int),
        r is Incomplete ==> gb18030_partial(data@.subrange(current as int, data@.len() as int)),
        r matches Resync::Next(next) ==> current < next <= data@.len() && gb18030_unit(
            data@.subrange(current as int, next as int),
        ) && gb18030_valid_from(data@, current as int) == gb18030_valid_from(data@, next as int),
{
    let mut state = State::Start;
    let mut i: usize = current;
    while i < data.len()
        invariant
            current <= i <= data@.len(),
            state_at(data@, current as int, i as int, state),
            i == current <==> state is Start,
        decreases data@.len() - i,
    {
        proof {
            lemma_step(data@, current as int, i as int, state);
        }
        match gb18030_step(state, data[i]) {
            None => {
                proof {
                    assert forall|t: Seq<u8>|
                        !#[trigger] gb18030_valid_from(data@ + t, current as int) by {
                        lemma_state_at_extend(data@, t, current as int, i as int, state);
                        assert((data@ + t)[i as int] == data@[i as int]);
                        lemma_step(data@ + t, current as int, i as int, state);
                    }
                }
                return Resync::Invalid;
            },
            Some(next) => {
                i += 1;
                if next == State::Start {
                    return Resync::Next(i);
                }
                state = next;
            },
        }
    }
    proof {
        lemma_partial(data@, current as int, state);
    }
    Resync::Incomplete
}

/// A window of high bytes that holds eight two-byte units: even bytes are
/// lead bytes 0x81..=0xFE, odd bytes are trailing bytes other than 0x7F and
/// 0xFF.
fn window_byte_pairs_ok(data: &[u8], start: usize) -> (r: bool)
    requires
        start + WINDOW <= data.len(),
        window_all(data@, start as int, true),
    ensures
        r ==> gb18030_valid_from(data@, start as int) == gb18030_valid_from(
            data@,
            start + WINDOW,
        ),
        r ==> forall|m: int|
            start <= m < start + WINDOW ==> if (m - start) % 2 == 0 {
                0x81 <= #[trigger] data@[m] <= 0xFE
            } else {
                0x80 <= data@[m] <= 0xFE
            },
{
    let mut k: usize = 0;
    while k < WINDOW
        invariant
            k <= WINDOW,
            k % 2 == 0,
            start + WINDOW <= data.len(),
            window_all(data@, start as int, true),
            gb18030_valid_from(data@, start as int) == gb18030_valid_from(data@, start + k),
            forall|m: int|
                start <= m < start + k ==> if (m - start) % 2 == 0 {
                    0x81 <= #[trigger] data@[m] <= 0xFE
                } else {
                    0x80 <= data@[m] <= 0xFE
                },
        decreases WINDOW - k,
    {
        let lead = data[start + k];
        let trail = data[start + k + 1];
        assert(trail >= 0x80);
        if lead < 0x81 || lead > 0xFE || trail == 0x7F || trail == 0xFF {
            return false;
        }
        k += 2;
    }
    true
}

/// A run of ASCII bytes is skipped by the GB18030 walk.
pub proof fn lemma_ascii_run(s: Seq<u8>, start: int, n: int)
    requires
        0 <= start,
        0 <= n,
        start + n <= s.len(),
        forall|k: int| start <= k < start + n ==> #[trigger] s[k] < 0x80,
    ensures
        gb18030_valid_from(s, start) == gb18030_valid_from(s, start + n),
    decreases n,
{
    if n > 0 {
        lemma_ascii_run(s, start + 1, n - 1);
    }
}

/// Windowed bulk validation: an ASCII window or a window of eight two-byte
/// units is skipped whole, any other window resynchronises through the
/// automaton one unit at a time, and the tail runs through the automaton.
pub fn is_gb18030_simd(data: &[u8]) -> (r: bool)
    ensures
        r == gb18030_valid(data@),
{
    let len = data.len();
    let mut i: usize = 0;
    while WINDOW <= len - i
        invariant
            i <= len == data@.len(),
            gb18030_valid(data@) == gb18030_valid_from(data@, i as int),
        decreases len - i,
    {
        let skip = match classify_window(data, i) {
            Window::Ascii => {
                proof {
                    lemma_ascii_run(data@, i as int, WINDOW as int);
                }
                true
            },
            Window::High => window_byte_pairs_ok(data, i),
            Window::Mixed => false,
        };
        if skip {
            i += WINDOW;
        } else {
            match gb18030_fallback(data, i) {
                Resync::Invalid => {
                    return false;
                },
                Resync::Incomplete => {
                    // the automaton below finishes the rest
                    break;
                },
                Resync::Next(next) => {
                    i = next;
                },
            }
        }
    }
    gb18030_fsm_from(data, i)
}

/// Verdict of the general decoding library.
pub fn is_gb18030_rs(data: &[u8]) -> (r: bool)
    requires
        data@.len() <= usize::MAX / 8,
    ensures
        r == (!decode_outcome(Charset::Gb18030, data@).1 && decode_outcome(Charset::Gb18030, data@).0.len()
            > 0),
{
    is_encoding_rs(data, Charset::Gb18030)
}

} // verus!
