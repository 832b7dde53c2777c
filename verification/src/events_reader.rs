use vstd::prelude::*;
use base64::Engine;

verus! {

use vstd::arithmetic::power2::pow2;

/// What base64 standard-alphabet decoding yields for a given string:
/// `Some` bytes where the input is valid base64, `None` otherwise.
pub uninterp spec fn base64_decoding(s: Seq<char>) -> Option<Seq<u8>>;

/// The team a player belongs to; `Neutral` stands for "no team" (spectating
/// or not yet joined), which the encoding stores as 0, red as 1, blue as 2.
#[derive(Clone, Copy, PartialEq, Eq, Structural, Debug)]
pub enum Team {
    Neutral,
    Red,
    Blue,
}

/// The flag variant a player may carry; `NoFlag` is encoded as 0 and the
/// carried variants as 1 through 5.
#[derive(Clone, Copy, PartialEq, Eq, Structural, Debug)]
pub enum Flag {
    NoFlag,
    Opponent,
    OpponentPotato,
    Neutral,
    NeutralPotato,
    Temporary,
}

/// One of the four independent powerup slots, identified by its bit in the
/// powerup bitmask (1, 2, 4, 8); `NoPowerup` is the empty mask.
#[derive(Clone, Copy, PartialEq, Eq, Structural, Debug)]
pub enum Powerup {
    NoPowerup,
    JukeJuice,
    RollingBomb,
    TagPro,
    TopSpeed,
}

/// The kind of a decoded gameplay event.
#[derive(Clone, Copy, PartialEq, Eq, Structural, Debug)]
pub enum Event {
    Join,
    Quit,
    Switch,
    End,
    Grab,
    Capture,
    FlaglessCapture,
    Powerup,
    DuplicatePowerup,
    Powerdown,
    Return,
    Tag,
    Drop,
    Pop,
    StartPrevent,
    StopPrevent,
    StartButton,
    StopButton,
    StartBlock,
    StopBlock,
}

/// One decoded event of a single player's stream, with the player state
/// (carried flag, powerup bitmask, team) as it stood when the event fired.
#[derive(Clone, Copy, PartialEq, Eq, Structural, Debug)]
pub struct PlayerEvent {
    pub event_type: Event,
    pub time: usize,
    pub flag: Flag,
    pub powerups: usize,
    pub team: Team,
}

impl Team {
    /// The numeric code of each team in the match log format.
    pub open spec fn spec_from_usize(v: usize) -> Option<Team> {
        if v == 0 {
            Some(Team::Neutral)
        } else if v == 1 {
            Some(Team::Red)
        } else if v == 2 {
            Some(Team::Blue)
        } else {
            None
        }
    }

    pub fn from_usize(v: usize) -> (r: Option<Team>)
        ensures
            r == Team::spec_from_usize(v),
    {
        match v {
            0 => Some(Team::Neutral),
            1 => Some(Team::Red),
            2 => Some(Team::Blue),
            _ => None,
        }
    }
}

impl Flag {
    /// The numeric code of each flag variant in the match log format.
    pub open spec fn spec_from_usize(v: usize) -> Option<Flag> {
        if v == 0 {
            Some(Flag::NoFlag)
        } else if v == 1 {
            Some(Flag::Opponent)
        } else if v == 2 {
            Some(Flag::OpponentPotato)
        } else if v == 3 {
            Some(Flag::Neutral)
        } else if v == 4 {
            Some(Flag::NeutralPotato)
        } else if v == 5 {
            Some(Flag::Temporary)
        } else {
            None
        }
    }

    pub fn from_usize(v: usize) -> (r: Option<Flag>)
        ensures
            r == Flag::spec_from_usize(v),
    {
        match v {
            0 => Some(Flag::NoFlag),
            1 => Some(Flag::Opponent),
            2 => Some(Flag::OpponentPotato),
            3 => Some(Flag::Neutral),
            4 => Some(Flag::NeutralPotato),
            5 => Some(Flag::Temporary),
            _ => None,
        }
    }
}

impl Powerup {
    /// The powerup bitmask bit that each slot occupies.
    pub open spec fn spec_from_usize(v: usize) -> Option<Powerup> {
        if v == 0 {
            Some(Powerup::NoPowerup)
        } else if v == 1 {
            Some(Powerup::JukeJuice)
        } else if v == 2 {
            Some(Powerup::RollingBomb)
        } else if v == 4 {
            Some(Powerup::TagPro)
        } else if v == 8 {
            Some(Powerup::TopSpeed)
        } else {
            None
        }
    }

    pub fn from_usize(v: usize) -> (r: Option<Powerup>)
        ensures
            r == Powerup::spec_from_usize(v),
    {
        match v {
            0 => Some(Powerup::NoPowerup),
            1 => Some(Powerup::JukeJuice),
            2 => Some(Powerup::RollingBomb),
            4 => Some(Powerup::TagPro),
            8 => Some(Powerup::TopSpeed),
            _ => None,
        }
    }
}

/// Bit-level reader over one player's packed event buffer: a byte buffer
/// and a cursor position counted in bits.
pub struct EventsReader {
    data: Vec<u8>,
    pos: usize,
}

/// Bit `i` of the buffer, most significant bit of each byte first.
pub open spec fn bit_at(data: Seq<u8>, i: nat) -> bool
    recommends
        i < 8 * data.len(),
{
    (data[(i / 8) as int] >> ((7 - (i % 8) as int) as u8)) & 1 == 1
}

/// One `read_bool` step: the bit at the cursor and the advanced cursor,
/// or `false` without moving once the buffer is exhausted.
pub open spec fn spec_read_bool(data: Seq<u8>, pos: nat) -> (bool, nat) {
    if pos < 8 * data.len() {
        (bit_at(data, pos), pos + 1)
    } else {
        (false, pos)
    }
}

/// `n` bits read MSB-first as an unsigned integer, with the final cursor.
pub open spec fn spec_read_fixed(data: Seq<u8>, pos: nat, n: nat) -> (nat, nat)
    decreases n,
{
    if n == 0 {
        (0, pos)
    } else {
        let (hi, p1) = spec_read_fixed(data, pos, (n - 1) as nat);
        let (b, p2) = spec_read_bool(data, p1);
        ((2 * hi + if b { 1nat } else { 0nat }), p2)
    }
}

/// A unary tally: the number of consecutive 1 bits before the next 0 bit
/// (or before the end of the buffer), with the final cursor.
pub open spec fn spec_read_tally(data: Seq<u8>, pos: nat) -> (nat, nat)
    decreases 8 * data.len() - pos,
{
    let (b, p1) = spec_read_bool(data, pos);
    if b {
        let (t, p2) = spec_read_tally(data, p1);
        ((t + 1) as nat, p2)
    } else {
        (0, p1)
    }
}

/// The canonical minimum value of a footer field whose payload starts
/// `free` bits before a byte boundary and spans `size` bits in all: the sum
/// of `2^f` for `f` in `free, free + 8, ...` strictly below `size`.
pub open spec fn footer_minimum(free: nat, size: nat) -> nat
    decreases size + 8 - free,
{
    if free < size {
        pow2(free) + footer_minimum(free + 8, size)
    } else {
        0
    }
}

/// A byte-alignment-aware variable-length integer: a 2-bit size selector
/// `s`, a payload of `8*s` bits plus however many bits remain to the next
/// byte boundary, offset by the canonical minimum of that size class.
pub open spec fn spec_read_footer(data: Seq<u8>, pos: nat) -> (nat, nat) {
    let (s, p1) = spec_read_fixed(data, pos, 2);
    let free = ((8 - p1 % 8) % 8) as nat;
    let size = 8 * s + free;
    let (v, p2) = spec_read_fixed(data, p1, size);
    ((v + footer_minimum(free, size)), p2)
}

/// The cursor never runs past the end of the buffer, and bit positions
/// fit in `usize`.
impl EventsReader {
    pub closed spec fn buf(self) -> Seq<u8> {
        self.data@
    }

    pub closed spec fn cursor(self) -> nat {
        self.pos as nat
    }

    pub open spec fn wf(self) -> bool {
        self.cursor() <= 8 * self.buf().len() && 8 * self.buf().len() <= usize::MAX
    }

    /// A reader over raw event bytes, positioned at the first bit.
    pub fn new(data: Vec<u8>) -> (r: EventsReader)
        requires
            8 * data@.len() <= usize::MAX,
        ensures
            r.buf() == data@,
            r.cursor() == 0,
            r.wf(),
    {
        EventsReader { data, pos: 0 }
    }

    /// A reader over the bytes that a base64-encoded event string decodes
    /// to; `None` when the string is not valid base64 or the decoded
    /// buffer is too large to address bit by bit.
    pub fn from_base64(b64_data: &str) -> (r: Option<EventsReader>)
        ensures
            match r {
                Some(er) => base64_decoding(b64_data@) == Some(er.buf()) && er.cursor() == 0
                    && er.wf(),
                None => base64_decoding(b64_data@) is None || (base64_decoding(b64_data@)
                    matches Some(d) && 8 * d.len() > usize::MAX),
            },
    {
        match decode_events(b64_data) {
            Some(data) => Some(EventsReader::new(data)),
            None => None,
        }
    }
}

/// The bytes a base64-encoded event string decodes to, when it is valid
/// base64 and small enough to address bit by bit.
pub fn decode_events(b64_data: &str) -> (r: Option<Vec<u8>>)
    ensures
        match r {
            Some(v) => base64_decoding(b64_data@) == Some(v@) && 8 * v@.len() <= usize::MAX,
            None => base64_decoding(b64_data@) is None || (base64_decoding(b64_data@)
                matches Some(d) && 8 * d.len() > usize::MAX),
        },
{
    match decode_base64(b64_data) {
        Some(data) => {
            if data.len() <= usize::MAX / 8 {
                proof {
                    assert(8 * (data@.len() as int) <= usize::MAX) by (nonlinear_arith)
                        requires
                            data@.len() <= usize::MAX / 8,
                    ;
                }
                Some(data)
            } else {
                proof {
                    assert(8 * (data@.len() as int) > usize::MAX) by (nonlinear_arith)
                        requires
                            data@.len() > usize::MAX / 8,
                    ;
                }
                None
            }
        },
        None => None,
    }
}

/// A bit-for-bit copy of an event buffer.
pub fn clone_bytes(v: &Vec<u8>) -> (r: Vec<u8>)
    ensures
        r@ == v@,
{
    let r = v.clone();
    proof {
        assert forall|k: int| 0 <= k < v@.len() implies r@[k] == v@[k] by {
            assert(vstd::pervasive::cloned::<u8>(v@[k], r@[k]));
        }
        assert(r@ =~= v@);
    }
    r
}

impl EventsReader {

    /// Rewinds the cursor to the first bit of the buffer.
    pub fn reset(&mut self)
        ensures
            final(self).buf() == old(self).buf(),
            final(self).cursor() == 0,
            old(self).wf() ==> final(self).wf(),
    {
        self.pos = 0;
    }

    /// True while the cursor has not consumed every byte.
    pub fn events_remaining(&self) -> (r: bool)
        requires
            self.wf(),
        ensures
            r == (self.cursor() < 8 * self.buf().len()),
    {
        proof {
            let p = self.pos;
            assert(p >> 3 == p / 8) by (bit_vector);
            assert((p / 8 < self.data@.len()) == ((p as int) < 8 * self.data@.len()))
                by (nonlinear_arith);
        }
        (self.pos >> 3) < self.data.len()
    }

    /// The next bit MSB-first, or `false` once the buffer is exhausted.
    pub fn read_bool(&mut self) -> (r: bool)
        requires
            old(self).wf(),
        ensures
            final(self).wf(),
            final(self).buf() == old(self).buf(),
            (r, final(self).cursor()) == spec_read_bool(old(self).buf(), old(self).cursor()),
    {
        if self.events_remaining() {
            let byte_index = self.pos >> 3;
            let k = self.pos & 7;
            proof {
                let p = self.pos;
                assert(p >> 3 == p / 8) by (bit_vector);
                assert(p & 7 == p % 8 && p % 8 < 8) by (bit_vector);
                assert((p as int) / 8 < self.data@.len()) by (nonlinear_arith)
                    requires
                        (p as int) < 8 * self.data@.len(),
                ;
            }
            let byte = self.data[byte_index];
            let bit = (byte >> ((7 - k) as u8)) & 1;
            self.pos = self.pos + 1;
            bit == 1
        } else {
            false
        }
    }

    /// `num_bits` bits MSB-first as an unsigned integer. The bound on
    /// `num_bits` keeps the result within `usize` on every platform.
    pub fn read_fixed(&mut self, num_bits: usize) -> (r: usize)
        requires
            old(self).wf(),
            num_bits <= 31,
        ensures
            final(self).wf(),
            final(self).buf() == old(self).buf(),
            (r as nat, final(self).cursor()) == spec_read_fixed(
                old(self).buf(),
                old(self).cursor(),
                num_bits as nat,
            ),
    {
        proof {
            vstd::arithmetic::power2::lemma_pow2_pos(0);
        }
        let mut result: usize = 0;
        let mut i: usize = 0;
        while i < num_bits
            invariant
                self.wf(),
                self.buf() == old(self).buf(),
                i <= num_bits <= 31,
                (result as nat, self.cursor()) == spec_read_fixed(
                    old(self).buf(),
                    old(self).cursor(),
                    i as nat,
                ),
                result < pow2(i as nat),
            decreases num_bits - i,
        {
            proof {
                lemma_read_fixed_bound(old(self).buf(), old(self).cursor(), (i + 1) as nat);
                vstd::arithmetic::power2::lemma_pow2_strictly_increases(i as nat, 31);
                vstd::arithmetic::power2::lemma2_to64();
            }
            let b = self.read_bool();
            result = result * 2 + if b {
                1
            } else {
                0
            };
            i = i + 1;
        }
        result
    }

    /// A unary tally: counts consecutive 1 bits up to the terminating 0.
    pub fn read_tally(&mut self) -> (r: usize)
        requires
            old(self).wf(),
        ensures
            final(self).wf(),
            final(self).buf() == old(self).buf(),
            (r as nat, final(self).cursor()) == spec_read_tally(
                old(self).buf(),
                old(self).cursor(),
            ),
    {
        let ghost whole = spec_read_tally(old(self).buf(), old(self).cursor());
        let mut result: usize = 0;
        loop
            invariant_except_break
                spec_read_tally(self.buf(), self.cursor()).0 + result == whole.0,
                spec_read_tally(self.buf(), self.cursor()).1 == whole.1,
            invariant
                self.wf(),
                self.buf() == old(self).buf(),
                result <= self.cursor(),
            ensures
                self.wf(),
                self.buf() == old(self).buf(),
                (result as nat, self.cursor()) == whole,
            decreases 8 * self.buf().len() - self.cursor(),
        {
            let b = self.read_bool();
            if !b {
                break ;
            }
            result = result + 1;
        }
        result
    }

    /// The byte-alignment-aware variable-length integer described by
    /// `spec_read_footer`.
    pub fn read_footer(&mut self) -> (r: usize)
        requires
            old(self).wf(),
        ensures
            final(self).wf(),
            final(self).buf() == old(self).buf(),
            (r as nat, final(self).cursor()) == spec_read_footer(
                old(self).buf(),
                old(self).cursor(),
            ),
    {
        let s = self.read_fixed(2);
        proof {
            lemma_read_fixed_bound(old(self).buf(), old(self).cursor(), 2);
            vstd::arithmetic::power2::lemma2_to64();
            assert(s < 4 ==> s << 3 == 8 * s) by (bit_vector);
            let p = self.pos;
            assert(p & 7 < 8) by (bit_vector);
            assert((((8 - (p & 7)) as usize) & 7) == ((8 - p % 8) % 8) && (((8 - (p & 7)) as usize)
                & 7) < 8) by (bit_vector);
        }
        let mut size = s << 3;
        let mut free = (8 - (self.pos & 7)) & 7;
        proof {
            assert((size | free) == size + free) by (bit_vector)
                requires
                    size < 32 && free < 8 && size % 8 == 0,
            ;
            assert(size % 8 == 0) by (nonlinear_arith)
                requires
                    size == 8 * s,
            ;
        }
        size = size | free;
        let ghost free0: nat = free as nat;
        let mut minimum: usize = 0;
        proof {
            vstd::arithmetic::power2::lemma_pow2_pos(free0);
        }
        while free < size
            invariant
                free0 <= free,
                size < 32,
                minimum + footer_minimum(free as nat, size as nat) == footer_minimum(
                    free0,
                    size as nat,
                ),
                minimum < pow2(free as nat),
            decreases size + 8 - free,
        {
            proof {
                vstd::arithmetic::power2::lemma2_to64();
                vstd::arithmetic::power2::lemma_pow2_strictly_increases(free as nat, (free
                    + 1) as nat);
                vstd::arithmetic::power2::lemma_pow2_strictly_increases((free + 1) as nat, (free
                    + 8) as nat);
                vstd::arithmetic::power2::lemma_pow2_strictly_increases((free + 1) as nat, 32);
                vstd::arithmetic::power2::lemma_pow2_adds(free as nat, 1);
                vstd::bits::lemma_usize_shl_is_mul(1, free as usize);
            }
            minimum = minimum + (1 << free);
            free = free + 8;
        }
        proof {
            lemma_footer_minimum_bound(free0, size as nat);
            lemma_read_fixed_bound(self.buf(), self.cursor(), size as nat);
            vstd::arithmetic::power2::lemma_pow2_strictly_increases(size as nat, 32);
            vstd::arithmetic::power2::lemma2_to64();
        }
        let v = self.read_fixed(size);
        v + minimum
    }
}

/// Relies on base64::engine::general_purpose::STANDARD.decode: the result
/// is a function of the input string alone, and a base64 string decodes to
/// at most as many bytes as it has characters (four characters carry three
/// bytes).
#[verifier::external_body]
fn decode_base64(s: &str) -> (r: Option<Vec<u8>>)
    ensures
        match r {
            Some(v) => base64_decoding(s@) == Some(v@) && v@.len() <= s@.len(),
            None => base64_decoding(s@) is None,
        },
{
    match base64::engine::general_purpose::STANDARD.decode(s) {
        Ok(v) => Some(v),
        Err(_) => None,
    }
}

/// The value of `n` bits is below `2^n`, the cursor only moves forward, and
/// it never moves past the end of the buffer.
pub proof fn lemma_read_fixed_bound(data: Seq<u8>, pos: nat, n: nat)
    ensures
        spec_read_fixed(data, pos, n).0 < pow2(n),
        pos <= spec_read_fixed(data, pos, n).1,
        pos <= 8 * data.len() ==> spec_read_fixed(data, pos, n).1 <= 8 * data.len(),
    decreases n,
{
    if n == 0 {
        assert(pow2(0) == 1) by {
            vstd::arithmetic::power2::lemma2_to64();
        }
    } else {
        vstd::arithmetic::power2::lemma_pow2_unfold(n);
        lemma_read_fixed_bound(data, pos, (n - 1) as nat);
        assert(pow2(n) == 2 * pow2((n - 1) as nat)) by {
            vstd::arithmetic::power2::lemma_pow2_adds(1, (n - 1) as nat);
            vstd::arithmetic::power2::lemma2_to64();
        }
    }
}

/// The tally result is bounded by the bits consumed, and the cursor only
/// moves forward, never past the end of the buffer.
pub proof fn lemma_read_tally_bound(data: Seq<u8>, pos: nat)
    ensures
        pos <= spec_read_tally(data, pos).1,
        spec_read_tally(data, pos).0 <= spec_read_tally(data, pos).1 - pos,
        pos <= 8 * data.len() ==> spec_read_tally(data, pos).1 <= 8 * data.len(),
    decreases 8 * data.len() - pos,
{
    let (b, p1) = spec_read_bool(data, pos);
    if b {
        lemma_read_tally_bound(data, p1);
    }
}

/// The canonical minimum of a footer size class lies below `2^size`: with
/// the smallest term included there is still room up to the class maximum.
pub proof fn lemma_footer_minimum_bound(free: nat, size: nat)
    requires
        free <= size,
    ensures
        footer_minimum(free, size) + pow2(free) <= pow2(size),
    decreases size - free,
{
    vstd::arithmetic::power2::lemma_pow2_pos(free);
    vstd::arithmetic::power2::lemma_pow2_pos(size);
    if free < size {
        if free + 8 <= size {
            lemma_footer_minimum_bound(free + 8, size);
            vstd::arithmetic::power2::lemma_pow2_adds(free, 8);
            vstd::arithmetic::power2::lemma2_to64();
            assert(pow2(free) + pow2(free) <= pow2(free + 8)) by (nonlinear_arith)
                requires
                    pow2(free + 8) == pow2(free) * pow2(8) && pow2(8) == 256 && pow2(free) > 0,
            ;
        } else {
            assert(footer_minimum(free + 8, size) == 0);
            vstd::arithmetic::power2::lemma_pow2_adds(free, 1);
            vstd::arithmetic::power2::lemma2_to64();
            if free + 1 < size {
                vstd::arithmetic::power2::lemma_pow2_strictly_increases(free + 1, size);
            }
        }
    }
}

/// A run of `n` set bits followed by a clear bit reads as the tally `n`,
/// leaving the cursor just past the terminating bit.
pub proof fn lemma_tally_of_ones(data: Seq<u8>, pos: nat, n: nat)
    requires
        pos + n < 8 * data.len(),
        forall|k: nat| pos <= k < pos + n ==> bit_at(data, k),
        !bit_at(data, (pos + n) as nat),
    ensures
        spec_read_tally(data, pos).0 == n,
        spec_read_tally(data, pos).1 == pos + n + 1,
    decreases n,
{
    if n == 0 {
    } else {
        assert(bit_at(data, pos));
        assert(forall|k: nat| pos + 1 <= k < pos + 1 + (n - 1) ==> bit_at(data, k));
        lemma_tally_of_ones(data, pos + 1, (n - 1) as nat);
    }
}

/// Extending a footer size class by one byte adds exactly the previous
/// class's power of two to the canonical minimum.
proof fn lemma_footer_minimum_extend(free: nat, size: nat)
    requires
        free <= size,
        (size - free) % 8 == 0,
    ensures
        footer_minimum(free, size + 8) == footer_minimum(free, size) + pow2(size),
    decreases size - free,
{
    if free < size {
        assert(size - free >= 8) by (nonlinear_arith)
            requires
                (size - free) % 8 == 0 && free < size,
        ;
        assert((size - (free + 8)) % 8 == 0) by (nonlinear_arith)
            requires
                (size - free) % 8 == 0 && free + 8 <= size,
        ;
        lemma_footer_minimum_extend(free + 8, size);
    } else {
        assert(footer_minimum(free + 8, size + 8) == 0);
        assert(footer_minimum(free, size + 8) == pow2(free) + footer_minimum(free + 8, size + 8));
        assert(footer_minimum(free, size) == 0);
    }
}

/// The footer classes decode non-overlapping, ascending ranges: at a given
/// byte misalignment `free`, the canonical minimum of size class `s + 1`
/// is exactly one past the greatest value of size class `s` (that class's
/// minimum plus its payload maximum `2^(8s + free) - 1`).
pub proof fn lemma_footer_class_ranges(s: nat, free: nat)
    requires
        s < 3,
        free < 8,
    ensures
        footer_minimum(free, 8 * (s + 1) + free) == footer_minimum(free, 8 * s + free) + pow2(
            8 * s + free,
        ),
        footer_minimum(free, 8 * (s + 1) + free) > footer_minimum(free, 8 * s + free) + pow2(
            8 * s + free,
        ) - 1,
{
    assert((8 * s + free - free) % 8 == 0) by (nonlinear_arith);
    lemma_footer_minimum_extend(free, 8 * s + free);
    vstd::arithmetic::power2::lemma_pow2_pos(8 * s + free);
}

/// The footer cursor only moves forward, never past the end of the buffer,
/// and the footer value always fits strictly below `2^32 - 1`.
pub proof fn lemma_read_footer_bound(data: Seq<u8>, pos: nat)
    ensures
        pos <= spec_read_footer(data, pos).1,
        pos <= 8 * data.len() ==> spec_read_footer(data, pos).1 <= 8 * data.len(),
        spec_read_footer(data, pos).0 <= 0xFFFF_FFFE,
{
    let (s, p1) = spec_read_fixed(data, pos, 2);
    let free = ((8 - p1 % 8) % 8) as nat;
    let size = 8 * s + free;
    lemma_read_fixed_bound(data, pos, 2);
    lemma_read_fixed_bound(data, p1, size);
    lemma_footer_minimum_bound(free, size);
    vstd::arithmetic::power2::lemma2_to64();
    vstd::arithmetic::power2::lemma_pow2_pos(free);
    if size < 32 {
        vstd::arithmetic::power2::lemma_pow2_strictly_increases(size, 32);
    }
}

/// The tile kinds of a map grid, each with its numeric code in the
/// layout format.
#[derive(Clone, Copy, PartialEq, Eq, Structural, Debug)]
pub enum MapTile {
    Empty,
    Floor,
    RedTeamTile,
    BlueTeamTile,
    YellowTeamTile,
    Wall,
    LowerLeftWall,
    UpperLeftWall,
    UpperRightWall,
    LowerRightWall,
    RedFlag,
    BlueFlag,
    NeutralFlag,
    TemporaryFlag,
    RedEndZone,
    BlueEndZone,
    NeutralBoost,
    RedBoost,
    BlueBoost,
    Powerup,
    JukeJuice,
    RollingBomb,
    TagPro,
    TopSpeed,
    Spike,
    Bomb,
    GravityWell,
    Button,
    GrayGate,
    GreenGate,
    RedGate,
    BlueGate,
    EntryPortal,
    ExitPortal,
    RedPotato,
    BluePotato,
    NeutralPotato,
    MarsBall,
}

impl MapTile {
    /// The numeric code of each tile in the layout format.
    pub open spec fn spec_from_usize(v: usize) -> Option<MapTile> {
        if v == 0 {
            Some(MapTile::Empty)
        } else if v == 20 {
            Some(MapTile::Floor)
        } else if v == 110 {
            Some(MapTile::RedTeamTile)
        } else if v == 120 {
            Some(MapTile::BlueTeamTile)
        } else if v == 230 {
            Some(MapTile::YellowTeamTile)
        } else if v == 10 {
            Some(MapTile::Wall)
        } else if v == 11 {
            Some(MapTile::LowerLeftWall)
        } else if v == 12 {
            Some(MapTile::UpperLeftWall)
        } else if v == 13 {
            Some(MapTile::UpperRightWall)
        } else if v == 14 {
            Some(MapTile::LowerRightWall)
        } else if v == 30 {
            Some(MapTile::RedFlag)
        } else if v == 40 {
            Some(MapTile::BlueFlag)
        } else if v == 160 {
            Some(MapTile::NeutralFlag)
        } else if v == 161 {
            Some(MapTile::TemporaryFlag)
        } else if v == 170 {
            Some(MapTile::RedEndZone)
        } else if v == 180 {
            Some(MapTile::BlueEndZone)
        } else if v == 50 {
            Some(MapTile::NeutralBoost)
        } else if v == 140 {
            Some(MapTile::RedBoost)
        } else if v == 150 {
            Some(MapTile::BlueBoost)
        } else if v == 60 {
            Some(MapTile::Powerup)
        } else if v == 61 {
            Some(MapTile::JukeJuice)
        } else if v == 62 {
            Some(MapTile::RollingBomb)
        } else if v == 63 {
            Some(MapTile::TagPro)
        } else if v == 64 {
            Some(MapTile::TopSpeed)
        } else if v == 70 {
            Some(MapTile::Spike)
        } else if v == 100 {
            Some(MapTile::Bomb)
        } else if v == 220 {
            Some(MapTile::GravityWell)
        } else if v == 80 {
            Some(MapTile::Button)
        } else if v == 90 {
            Some(MapTile::GrayGate)
        } else if v == 91 {
            Some(MapTile::GreenGate)
        } else if v == 92 {
            Some(MapTile::RedGate)
        } else if v == 93 {
            Some(MapTile::BlueGate)
        } else if v == 130 {
            Some(MapTile::EntryPortal)
        } else if v == 131 {
            Some(MapTile::ExitPortal)
        } else if v == 190 {
            Some(MapTile::RedPotato)
        } else if v == 200 {
            Some(MapTile::BluePotato)
        } else if v == 210 {
            Some(MapTile::NeutralPotato)
        } else if v == 211 {
            Some(MapTile::MarsBall)
        } else {
            None
        }
    }

    pub fn from_usize(v: usize) -> (r: Option<MapTile>)
        ensures
            r == MapTile::spec_from_usize(v),
    {
        match v {
            0 => Some(MapTile::Empty),
            20 => Some(MapTile::Floor),
            110 => Some(MapTile::RedTeamTile),
            120 => Some(MapTile::BlueTeamTile),
            230 => Some(MapTile::YellowTeamTile),
            10 => Some(MapTile::Wall),
            11 => Some(MapTile::LowerLeftWall),
            12 => Some(MapTile::UpperLeftWall),
            13 => Some(MapTile::UpperRightWall),
            14 => Some(MapTile::LowerRightWall),
            30 => Some(MapTile::RedFlag),
            40 => Some(MapTile::BlueFlag),
            160 => Some(MapTile::NeutralFlag),
            161 => Some(MapTile::TemporaryFlag),
            170 => Some(MapTile::RedEndZone),
            180 => Some(MapTile::BlueEndZone),
            50 => Some(MapTile::NeutralBoost),
            140 => Some(MapTile::RedBoost),
            150 => Some(MapTile::BlueBoost),
            60 => Some(MapTile::Powerup),
            61 => Some(MapTile::JukeJuice),
            62 => Some(MapTile::RollingBomb),
            63 => Some(MapTile::TagPro),
            64 => Some(MapTile::TopSpeed),
            70 => Some(MapTile::Spike),
            100 => Some(MapTile::Bomb),
            220 => Some(MapTile::GravityWell),
            80 => Some(MapTile::Button),
            90 => Some(MapTile::GrayGate),
            91 => Some(MapTile::GreenGate),
            92 => Some(MapTile::RedGate),
            93 => Some(MapTile::BlueGate),
            130 => Some(MapTile::EntryPortal),
            131 => Some(MapTile::ExitPortal),
            190 => Some(MapTile::RedPotato),
            200 => Some(MapTile::BluePotato),
            210 => Some(MapTile::NeutralPotato),
            211 => Some(MapTile::MarsBall),
            _ => None,
        }
    }
}

/// A decoded tile grid.
#[derive(Debug)]
pub struct MapLayout {
    pub layout: Vec<MapTile>,
    pub width: usize,
    pub height: usize,
}

impl MapLayout {
    /// The tile at one grid coordinate.
    pub fn tile_at(&self, x: usize, y: usize) -> (t: MapTile)
        requires
            (y * self.width + x) < self.layout@.len(),
        ensures
            t == self.layout@[y * self.width + x],
    {
        proof {
            vstd::std_specs::vec::axiom_spec_len(&self.layout);
            assert(y * self.width >= 0) by (nonlinear_arith);
        }
        self.layout[x + y * self.width]
    }
}

/// The tile code a 6-bit layout selector expands to.
pub open spec fn spec_tile_code(n: nat) -> nat {
    if n == 0 {
        0
    } else if n < 6 {
        n + 9
    } else if n < 13 {
        (n * 10 - 40) as nat
    } else if n < 17 {
        n + 77
    } else if n < 20 {
        (n * 10 - 70) as nat
    } else if n < 22 {
        n + 110
    } else {
        (n * 10 - 80) as nat
    }
}

/// Exhausted input reads as zero bits without moving the cursor.
proof fn lemma_read_fixed_stuck(data: Seq<u8>, pos: nat, n: nat)
    requires
        pos >= 8 * data.len(),
    ensures
        spec_read_fixed(data, pos, n) == (0nat, pos),
    decreases n,
{
    if n > 0 {
        lemma_read_fixed_stuck(data, pos, (n - 1) as nat);
    }
}

/// Exhausted input reads a zero footer without moving the cursor.
proof fn lemma_read_footer_stuck(data: Seq<u8>, pos: nat)
    requires
        pos >= 8 * data.len(),
    ensures
        spec_read_footer(data, pos) == (0nat, pos),
{
    lemma_read_fixed_stuck(data, pos, 2);
    let free = ((8 - pos % 8) % 8) as nat;
    lemma_read_fixed_stuck(data, pos, free);
}

/// While input remains, a fixed-width read of at least one bit advances
/// the cursor.
proof fn lemma_read_fixed_advances(data: Seq<u8>, pos: nat, n: nat)
    requires
        pos < 8 * data.len(),
        n >= 1,
    ensures
        spec_read_fixed(data, pos, n).1 > pos,
    decreases n,
{
    if n > 1 {
        lemma_read_fixed_advances(data, pos, (n - 1) as nat);
    } else {
        assert(spec_read_fixed(data, pos, 0nat) == (0nat, pos));
        assert(spec_read_bool(data, pos).1 == pos + 1);
    }
}

/// The tile grid a layout buffer decodes to, appended to the rows decoded
/// so far: each step reads a 6-bit tile selector and a footer-coded run
/// length, and the grid closes at the first row boundary after the input
/// runs out. `None` when a selector expands to no known tile.
pub open spec fn spec_map_layout(
    data: Seq<u8>,
    pos: nat,
    layout: Seq<MapTile>,
    width: nat,
) -> Option<Seq<MapTile>>
    decreases 8 * data.len() - pos, (if layout.len() % width == 0 { 1int } else { 0int })
        when width >= 2
    via spec_map_layout_decreases
{
    if pos < 8 * data.len() || layout.len() % width == 0 {
        let (n, p1) = spec_read_fixed(data, pos, 6);
        match MapTile::spec_from_usize(spec_tile_code(n) as usize) {
            Some(tile) => {
                let (rep, p2) = spec_read_footer(data, p1);
                spec_map_layout(data, p2, layout + Seq::new((rep + 1) as nat, |i: int| tile), width)
            },
            None => None,
        }
    } else {
        Some(layout)
    }
}

#[via_fn]
proof fn spec_map_layout_decreases(data: Seq<u8>, pos: nat, layout: Seq<MapTile>, width: nat) {
    if pos < 8 * data.len() || layout.len() % width == 0 {
        let (n, p1) = spec_read_fixed(data, pos, 6);
        if MapTile::spec_from_usize(spec_tile_code(n) as usize) is Some {
            let (rep, p2) = spec_read_footer(data, p1);
            if pos < 8 * data.len() {
                lemma_read_fixed_advances(data, pos, 6);
                lemma_read_fixed_bound(data, pos, 6);
                lemma_read_footer_bound(data, p1);
            } else {
                lemma_read_fixed_stuck(data, pos, 6);
                lemma_read_footer_stuck(data, pos);
                assert((layout.len() + 1) % width != 0) by (nonlinear_arith)
                    requires
                        layout.len() % width == 0 && width >= 2,
                ;
            }
        }
    }
}

impl EventsReader {
    /// Decodes the tile grid from the start of the buffer, as
    /// `spec_map_layout` describes; the height is however many full rows
    /// came out. `None` when a selector expands to no known tile.
    pub fn map_layout(&mut self, width: usize) -> (r: Option<MapLayout>)
        requires
            old(self).wf(),
            width >= 2,
        ensures
            final(self).wf(),
            final(self).buf() == old(self).buf(),
            match r {
                Some(ml) => spec_map_layout(old(self).buf(), 0, Seq::empty(), width as nat)
                    == Some(ml.layout@) && ml.width == width && ml.height == ml.layout@.len() as int
                    / width as int,
                None => spec_map_layout(old(self).buf(), 0, Seq::empty(), width as nat) is None,
            },
    {
        self.reset();
        let mut layout: Vec<MapTile> = Vec::new();
        loop
            invariant_except_break
                spec_map_layout(self.buf(), self.cursor(), layout@, width as nat)
                    == spec_map_layout(self.buf(), 0, Seq::empty(), width as nat),
            invariant
                self.wf(),
                width >= 2,
                self.buf() == old(self).buf(),
            ensures
                spec_map_layout(self.buf(), 0, Seq::empty(), width as nat) == Some(layout@),
            decreases 8 * self.buf().len() - self.cursor(), (if layout@.len() % (width as nat) == 0 {
                1int
            } else {
                0int
            }),
        {
            let remaining = self.events_remaining();
            if !remaining && layout.len() % width != 0 {
                break ;
            }
            let ghost pre = *self;
            let ghost pre_layout = layout@;
            let n = self.read_fixed(6);
            proof {
                lemma_read_fixed_bound(pre.buf(), pre.cursor(), 6);
                vstd::arithmetic::power2::lemma2_to64();
            }
            let code: usize = if n == 0 {
                0
            } else if n < 6 {
                n + 9
            } else if n < 13 {
                n * 10 - 40
            } else if n < 17 {
                n + 77
            } else if n < 20 {
                n * 10 - 70
            } else if n < 22 {
                n + 110
            } else {
                n * 10 - 80
            };
            proof {
                assert(code as nat == spec_tile_code(n as nat));
            }
            let tile = match MapTile::from_usize(code) {
                Some(t) => t,
                None => {
                    return None;
                },
            };
            let ghost pre_footer = *self;
            let rep = self.read_footer();
            proof {
                lemma_read_footer_bound(pre_footer.buf(), pre_footer.cursor());
                if pre.cursor() < 8 * pre.buf().len() {
                    lemma_read_fixed_advances(pre.buf(), pre.cursor(), 6);
                } else {
                    lemma_read_fixed_stuck(pre.buf(), pre.cursor(), 6);
                    lemma_read_footer_stuck(pre.buf(), pre.cursor());
                    assert((pre_layout.len() + 1) % (width as nat) != 0) by (nonlinear_arith)
                        requires
                            pre_layout.len() % (width as nat) == 0 && width >= 2,
                    ;
                }
            }
            let mut k: usize = 0;
            while k < rep + 1
                invariant
                    k <= rep + 1,
                    rep <= 0xFFFF_FFFE,
                    layout@ == pre_layout + Seq::new(k as nat, |i: int| tile),
                decreases rep + 1 - k,
            {
                layout.push(tile);
                k = k + 1;
                proof {
                    assert(layout@ =~= pre_layout + Seq::new(k as nat, |i: int| tile));
                }
            }
            proof {
                assert(layout@ =~= pre_layout + Seq::new((rep + 1) as nat, |i: int| tile));
            }
        }
        let height = layout.len() / width;
        Some(MapLayout { layout, width, height })
    }
}

/// One splat mark: a pixel coordinate pair and the second it landed in.
#[derive(Clone, Copy, PartialEq, Eq, Structural, Debug)]
pub struct SplatEvent {
    pub x: usize,
    pub y: usize,
    pub time: usize,
}

/// How many bits one pixel coordinate of a grid axis occupies, and the
/// centering offset subtracted from each stored value: a rough power-of-
/// two cover of the highest pixel coordinate, computed by fixed mask
/// tests.
pub open spec fn spec_bits_used(num_tiles: usize) -> (usize, usize)
    recommends
        1 <= num_tiles <= 1638,
{
    let c = (40 * num_tiles - 1) as usize;
    let b = (32 - (if c & 0xFFFF0000 == 0 {
        16int
    } else {
        0int
    }) - (if c & 0x0000FF00 == 0 {
        8int
    } else {
        0int
    }) - (if c & 0x000000F0 == 0 {
        4int
    } else {
        0int
    }) - (if c & 0x0000000C == 0 {
        2int
    } else {
        0int
    }) - (if c & 0x00000002 == 0 {
        1int
    } else {
        0int
    })) as usize;
    (b, (((1usize << b) - 40 * (num_tiles - 1)) / 2) as usize)
}

impl EventsReader {
    /// The coordinate width and centering offset of one grid axis, as
    /// `spec_bits_used` describes. The mask cover is a rough one: on some
    /// axis sizes it lands below the highest pixel coordinate, and those
    /// sizes are excluded here, since the centering offset would not
    /// exist for them.
    pub fn bits_used_to_represent_coordinate(&self, num_tiles: usize) -> (r: (usize, usize))
        requires
            1 <= num_tiles <= 1638,
            40 * (num_tiles - 1) <= (1usize << spec_bits_used(num_tiles).0),
        ensures
            r == spec_bits_used(num_tiles),
            r.0 <= 16,
    {
        let highest_pixel_coordinate = 40 * num_tiles - 1;
        let mut bits_used: usize = 32;
        if highest_pixel_coordinate & 0xFFFF0000 == 0 {
            bits_used = bits_used - 16;
        }
        if highest_pixel_coordinate & 0x0000FF00 == 0 {
            bits_used = bits_used - 8;
        }
        if highest_pixel_coordinate & 0x000000F0 == 0 {
            bits_used = bits_used - 4;
        }
        if highest_pixel_coordinate & 0x0000000C == 0 {
            bits_used = bits_used - 2;
        }
        if highest_pixel_coordinate & 0x00000002 == 0 {
            bits_used = bits_used - 1;
        }
        proof {
            let c = highest_pixel_coordinate;
            assert(c < 0x10000 ==> c & 0xFFFF0000 == 0) by (bit_vector);
            assert(bits_used <= 16);
            assert((bits_used, (((1usize << bits_used) - 40 * (num_tiles - 1)) / 2) as usize)
                == spec_bits_used(num_tiles));
        }
        let unused_space = ((1usize << bits_used) - 40 * (num_tiles - 1)) / 2;
        (bits_used, unused_space)
    }
}

/// One second's splat group: `k` coordinate pairs read and appended, each
/// shifted down by the centering offsets (clamped at zero where a
/// malformed buffer stores less than the offset).
pub open spec fn spec_splat_group(
    acc: Seq<SplatEvent>,
    data: Seq<u8>,
    pos: nat,
    k: nat,
    time: usize,
    xb: usize,
    xu: usize,
    yb: usize,
    yu: usize,
) -> (Seq<SplatEvent>, nat)
    decreases k,
{
    if k == 0 {
        (acc, pos)
    } else {
        let (xv, p1) = spec_read_fixed(data, pos, xb as nat);
        let (yv, p2) = spec_read_fixed(data, p1, yb as nat);
        let x: usize = if xv >= xu {
            (xv - xu) as usize
        } else {
            0
        };
        let y: usize = if yv >= yu {
            (yv - yu) as usize
        } else {
            0
        };
        spec_splat_group(acc.push(SplatEvent { x, y, time }), data, p2, (k - 1) as nat, time, xb, xu, yb, yu)
    }
}

/// While input remains, a tally read advances the cursor.
proof fn lemma_read_tally_advances(data: Seq<u8>, pos: nat)
    requires
        pos < 8 * data.len(),
    ensures
        spec_read_tally(data, pos).1 > pos,
{
    let (b, p1) = spec_read_bool(data, pos);
    if b {
        lemma_read_tally_bound(data, p1);
    }
}

/// A splat group's cursor only moves forward, never past the end of the
/// buffer.
proof fn lemma_splat_group_bounds(
    acc: Seq<SplatEvent>,
    data: Seq<u8>,
    pos: nat,
    k: nat,
    time: usize,
    xb: usize,
    xu: usize,
    yb: usize,
    yu: usize,
)
    requires
        pos <= 8 * data.len(),
    ensures
        pos <= spec_splat_group(acc, data, pos, k, time, xb, xu, yb, yu).1 <= 8 * data.len(),
    decreases k,
{
    if k > 0 {
        let (xv, p1) = spec_read_fixed(data, pos, xb as nat);
        let (yv, p2) = spec_read_fixed(data, p1, yb as nat);
        lemma_read_fixed_bound(data, pos, xb as nat);
        lemma_read_fixed_bound(data, p1, yb as nat);
        let x: usize = if xv >= xu {
            (xv - xu) as usize
        } else {
            0
        };
        let y: usize = if yv >= yu {
            (yv - yu) as usize
        } else {
            0
        };
        lemma_splat_group_bounds(
            acc.push(SplatEvent { x, y, time }),
            data,
            p2,
            (k - 1) as nat,
            time,
            xb,
            xu,
            yb,
            yu,
        );
    }
}

/// Every second's splat group until the buffer runs out, appended to the
/// splats decoded so far.
pub open spec fn spec_splats(
    acc: Seq<SplatEvent>,
    data: Seq<u8>,
    pos: nat,
    time: usize,
    xb: usize,
    xu: usize,
    yb: usize,
    yu: usize,
) -> Seq<SplatEvent>
    decreases 8 * data.len() - pos,
    via spec_splats_decreases
{
    if pos < 8 * data.len() && time < usize::MAX {
        let t2 = (time + 1) as usize;
        let (k, p1) = spec_read_tally(data, pos);
        let (acc2, p2) = spec_splat_group(acc, data, p1, k, t2, xb, xu, yb, yu);
        spec_splats(acc2, data, p2, t2, xb, xu, yb, yu)
    } else {
        acc
    }
}

#[via_fn]
proof fn spec_splats_decreases(
    acc: Seq<SplatEvent>,
    data: Seq<u8>,
    pos: nat,
    time: usize,
    xb: usize,
    xu: usize,
    yb: usize,
    yu: usize,
) {
    if pos < 8 * data.len() && time < usize::MAX {
        let t2 = (time + 1) as usize;
        let (k, p1) = spec_read_tally(data, pos);
        lemma_read_tally_advances(data, pos);
        lemma_read_tally_bound(data, pos);
        lemma_splat_group_bounds(acc, data, p1, k, t2, xb, xu, yb, yu);
    }
}

impl EventsReader {
    /// Decodes the splat side channel from the start of the buffer, one
    /// tallied group of coordinate pairs per second, as `spec_splats`
    /// describes. The grid's axis sizes fix the coordinate widths.
    pub fn splat_events(&mut self, map_layout: MapLayout) -> (r: Vec<SplatEvent>)
        requires
            old(self).wf(),
            1 <= map_layout.width <= 1638,
            1 <= map_layout.height <= 1638,
            40 * (map_layout.width - 1) <= (1usize << spec_bits_used(map_layout.width).0),
            40 * (map_layout.height - 1) <= (1usize << spec_bits_used(map_layout.height).0),
        ensures
            final(self).wf(),
            final(self).buf() == old(self).buf(),
            ({
                let xb = spec_bits_used(map_layout.width);
                let yb = spec_bits_used(map_layout.height);
                r@ == spec_splats(Seq::empty(), old(self).buf(), 0, 0, xb.0, xb.1, yb.0, yb.1)
            }),
    {
        self.reset();
        let x_bits = self.bits_used_to_represent_coordinate(map_layout.width);
        let y_bits = self.bits_used_to_represent_coordinate(map_layout.height);
        let mut splats: Vec<SplatEvent> = Vec::new();
        let mut time: usize = 0;
        while self.events_remaining()
            invariant
                self.wf(),
                self.buf() == old(self).buf(),
                x_bits == spec_bits_used(map_layout.width),
                y_bits == spec_bits_used(map_layout.height),
                x_bits.0 <= 16,
                y_bits.0 <= 16,
                time as nat <= self.cursor(),
                spec_splats(
                    splats@,
                    self.buf(),
                    self.cursor(),
                    time,
                    x_bits.0,
                    x_bits.1,
                    y_bits.0,
                    y_bits.1,
                ) == spec_splats(Seq::empty(), self.buf(), 0, 0, x_bits.0, x_bits.1, y_bits.0, y_bits.1),
            decreases 8 * self.buf().len() - self.cursor(),
        {
            let ghost pre_iter = self.cursor();
            proof {
                lemma_read_tally_advances(self.buf(), self.cursor());
                lemma_read_tally_bound(self.buf(), self.cursor());
            }
            time = time + 1;
            let count = self.read_tally();
            proof {
                lemma_splat_group_bounds(
                    splats@,
                    self.buf(),
                    self.cursor(),
                    count as nat,
                    time,
                    x_bits.0,
                    x_bits.1,
                    y_bits.0,
                    y_bits.1,
                );
            }
            let ghost group_target = spec_splat_group(
                splats@,
                self.buf(),
                self.cursor(),
                count as nat,
                time,
                x_bits.0,
                x_bits.1,
                y_bits.0,
                y_bits.1,
            );
            let mut k: usize = 0;
            while k < count
                invariant
                    self.wf(),
                    self.buf() == old(self).buf(),
                    k <= count,
                    x_bits.0 <= 16,
                    y_bits.0 <= 16,
                    time as nat <= self.cursor(),
                    spec_splat_group(
                        splats@,
                        self.buf(),
                        self.cursor(),
                        (count - k) as nat,
                        time,
                        x_bits.0,
                        x_bits.1,
                        y_bits.0,
                        y_bits.1,
                    ) == group_target,
                decreases count - k,
            {
                proof {
                    lemma_read_fixed_bound(self.buf(), self.cursor(), x_bits.0 as nat);
                    lemma_read_fixed_bound(
                        self.buf(),
                        spec_read_fixed(self.buf(), self.cursor(), x_bits.0 as nat).1,
                        y_bits.0 as nat,
                    );
                }
                let xv = self.read_fixed(x_bits.0);
                let yv = self.read_fixed(y_bits.0);
                let x = if xv >= x_bits.1 {
                    xv - x_bits.1
                } else {
                    0
                };
                let y = if yv >= y_bits.1 {
                    yv - y_bits.1
                } else {
                    0
                };
                splats.push(SplatEvent { x, y, time });
                k = k + 1;
            }
            proof {
                assert((splats@, self.cursor() as nat) == group_target);
                assert(self.cursor() > pre_iter);
            }
        }
        splats
    }
}

} // verus!
