//! From frequency to note number to tablature label.
//!
//! Note numbers follow the equal-tempered scale with A4 = 440 Hz at note 69.
//! The tablature table covers three octaves of a ten-hole diatonic instrument:
//! a plain number is a blow note, a leading minus a draw note, each trailing
//! apostrophe a bend of one semitone, and a trailing `o` an overblow or
//! overdraw.

use vstd::arithmetic::power2::{
    lemma2_to64, lemma_pow2_adds, lemma_pow2_pos, lemma_pow2_strictly_increases,
    lemma_pow2_unfold, pow2,
};
use vstd::prelude::*;
use vstd::string::StringSliceAdditionalSpecFns;

verus! {

/// The number of entries in the tablature table.
pub const TABLATURE_LEN: usize = 36;

/// The note number of the first entry of the table for an instrument in C.
pub const TABLATURE_BASE: i32 = 60;

/// The supported musical keys.
#[derive(Clone, Copy, Debug, PartialEq, Eq, Structural)]
pub enum Key {
    C,
    Db,
    D,
    Eb,
    E,
    F,
    Gb,
    G,
    Ab,
    A,
    Bb,
    B,
}

/// The offset of a key from C, in semitones.
pub open spec fn key_offset_of(key: Key) -> int {
    match key {
        Key::C => 0,
        Key::Db => 1,
        Key::D => 2,
        Key::Eb => 3,
        Key::E => 4,
        Key::F => 5,
        Key::Gb => 6,
        Key::G => -5,
        Key::Ab => -4,
        Key::A => -3,
        Key::Bb => -2,
        Key::B => -1,
    }
}

/// The key that the bytes `name` spell, if they spell one: a capital letter
/// from `A` to `G`, alone or followed by a small `b` for the flat keys `Ab`,
/// `Bb`, `Db`, `Eb` and `Gb`.
pub open spec fn key_named(name: Seq<u8>) -> Option<Key> {
    if name.len() == 1 {
        if name[0] == 67 {
            Some(Key::C)
        } else if name[0] == 68 {
            Some(Key::D)
        } else if name[0] == 69 {
            Some(Key::E)
        } else if name[0] == 70 {
            Some(Key::F)
        } else if name[0] == 71 {
            Some(Key::G)
        } else if name[0] == 65 {
            Some(Key::A)
        } else if name[0] == 66 {
            Some(Key::B)
        } else {
            None
        }
    } else if name.len() == 2 && name[1] == 98 {
        if name[0] == 68 {
            Some(Key::Db)
        } else if name[0] == 69 {
            Some(Key::Eb)
        } else if name[0] == 71 {
            Some(Key::Gb)
        } else if name[0] == 65 {
            Some(Key::Ab)
        } else if name[0] == 66 {
            Some(Key::Bb)
        } else {
            None
        }
    } else {
        None
    }
}

/// The name of a key.
pub open spec fn name_of(key: Key) -> Seq<char> {
    match key {
        Key::C => "C"@,
        Key::Db => "Db"@,
        Key::D => "D"@,
        Key::Eb => "Eb"@,
        Key::E => "E"@,
        Key::F => "F"@,
        Key::Gb => "Gb"@,
        Key::G => "G"@,
        Key::Ab => "Ab"@,
        Key::A => "A"@,
        Key::Bb => "Bb"@,
        Key::B => "B"@,
    }
}

/// The position in the tablature table of `note` on an instrument in `key`.
pub open spec fn tab_index(note: int, key: Key) -> int {
    note - TABLATURE_BASE - key_offset_of(key)
}

/// The entry of the tablature table at `index`, and the empty label for an
/// index outside the table.
pub open spec fn label_of(index: int) -> Seq<char> {
    if index == 0 {
        "1"@
    } else if index == 1 {
        "-1'"@
    } else if index == 2 {
        "-1"@
    } else if index == 3 {
        "1o"@
    } else if index == 4 {
        "2"@
    } else if index == 5 {
        "-2''"@
    } else if index == 6 {
        "-2'"@
    } else if index == 7 {
        "-2"@
    } else if index == 8 {
        "-3'''"@
    } else if index == 9 {
        "-3''"@
    } else if index == 10 {
        "-3'"@
    } else if index == 11 {
        "-3"@
    } else if index == 12 {
        "4"@
    } else if index == 13 {
        "-4'"@
    } else if index == 14 {
        "-4"@
    } else if index == 15 {
        "4o"@
    } else if index == 16 {
        "5"@
    } else if index == 17 {
        "-5"@
    } else if index == 18 {
        "5o"@
    } else if index == 19 {
        "6"@
    } else if index == 20 {
        "-6'"@
    } else if index == 21 {
        "-6"@
    } else if index == 22 {
        "6o"@
    } else if index == 23 {
        "-7"@
    } else if index == 24 {
        "7"@
    } else if index == 25 {
        "-7o"@
    } else if index == 26 {
        "-8"@
    } else if index == 27 {
        "8'"@
    } else if index == 28 {
        "8"@
    } else if index == 29 {
        "-9"@
    } else if index == 30 {
        "9'"@
    } else if index == 31 {
        "9"@
    } else if index == 32 {
        "-9o"@
    } else if index == 33 {
        "-10"@
    } else if index == 34 {
        "10''"@
    } else if index == 35 {
        "10'"@
    } else {
        ""@
    }
}

/// Every entry of the table is a label of at least one character, and the
/// label for an index outside the table is empty.
pub proof fn lemma_label_is_empty_outside_table(index: int)
    ensures
        0 <= index < TABLATURE_LEN ==> label_of(index).len() > 0,
        !(0 <= index < TABLATURE_LEN) ==> label_of(index).len() == 0,
{
    reveal_strlit("");
    reveal_strlit("1");
    reveal_strlit("-1'");
    reveal_strlit("-1");
    reveal_strlit("1o");
    reveal_strlit("2");
    reveal_strlit("-2''");
    reveal_strlit("-2'");
    reveal_strlit("-2");
    reveal_strlit("-3'''");
    reveal_strlit("-3''");
    reveal_strlit("-3'");
    reveal_strlit("-3");
    reveal_strlit("4");
    reveal_strlit("-4'");
    reveal_strlit("-4");
    reveal_strlit("4o");
    reveal_strlit("5");
    reveal_strlit("-5");
    reveal_strlit("5o");
    reveal_strlit("6");
    reveal_strlit("-6'");
    reveal_strlit("-6");
    reveal_strlit("6o");
    reveal_strlit("-7");
    reveal_strlit("7");
    reveal_strlit("-7o");
    reveal_strlit("-8");
    reveal_strlit("8'");
    reveal_strlit("8");
    reveal_strlit("-9");
    reveal_strlit("9'");
    reveal_strlit("9");
    reveal_strlit("-9o");
    reveal_strlit("-10");
    reveal_strlit("10''");
    reveal_strlit("10'");
}

/// In every key some note has a label, and a note whose position falls
/// outside the table has none.
pub proof fn lemma_every_key_has_a_label(key: Key, note: int)
    ensures
        exists|n: int| label_of(tab_index(n, key)).len() > 0,
        !(0 <= tab_index(note, key) < TABLATURE_LEN) ==> label_of(tab_index(note, key)).len() == 0,
{
    lemma_label_is_empty_outside_table(tab_index(note, key));
    let first = TABLATURE_BASE + key_offset_of(key);
    lemma_label_is_empty_outside_table(tab_index(first, key));
}


/// The frequency of the reference note, in millihertz.
pub const CONCERT_PITCH: u64 = 440000;

/// The note number of the reference note.
pub const CONCERT_NOTE: i32 = 69;

/// The 24th power of `x`.
pub open spec fn pow24(x: int) -> int {
    let x2 = x * x;
    let x4 = x2 * x2;
    let x8 = x4 * x4;
    x8 * x8 * x8
}

/// A frequency of `freq` millihertz lies at or above the lower edge of
/// `note`, which is half a semitone below the note itself:
/// `freq / 440 Hz >= 2^((note - 69.5) / 12)`. Both sides are raised to the
/// 24th power and cleared of fractions, which leaves whole numbers only:
/// `freq^24 >= 440000^24 * 2^(2 * note - 139)`.
pub open spec fn reaches_note(freq: int, note: int) -> bool {
    if 2 * note >= 139 {
        pow24(freq) >= pow24(CONCERT_PITCH as int) * pow2((2 * note - 139) as nat)
    } else {
        pow24(freq) * pow2((139 - 2 * note) as nat) >= pow24(CONCERT_PITCH as int)
    }
}

/// `note` is the note nearest to `freq` millihertz on the equal-tempered
/// scale: `note == round(12 * log2(freq / 440 Hz) + 69)`.
pub open spec fn is_note_of(freq: int, note: int) -> bool {
    reaches_note(freq, note) && !reaches_note(freq, note + 1)
}

/// The nearest note of a frequency of `freq` millihertz.
pub open spec fn nearest_note(freq: int) -> int {
    choose|note: int| is_note_of(freq, note)
}

/// The lower edges of the twelve notes of one octave and of the first note of
/// the next, 52 octaves above note 0 and rounded up: entry `s` is the least
/// whole number whose 24th power reaches `440000^24 * 2^(2 * s + 1109)`. It
/// lies between 2^64 and 2^67, so that every frequency can be doubled into
/// the octave of the table without loss.
pub open spec fn semitone_edge(s: int) -> int {
    if s == 0 {
        35772316078918831145int
    } else if s == 1 {
        37899448685370116790int
    } else if s == 2 {
        40153067178713548911int
    } else if s == 3 {
        42540692801176514364int
    } else if s == 4 {
        45070294031322666223int
    } else if s == 5 {
        47750313178108388087int
    } else if s == 6 {
        50589694556304147316int
    } else if s == 7 {
        53597914337313586810int
    } else if s == 8 {
        56785012175014689142int
    } else if s == 9 {
        60161624712171318026int
    } else if s == 10 {
        63739021079239670922int
    } else if s == 11 {
        67529140504043609364int
    } else {
        71544632157837662290int
    }
}

/// Two to the power 1109, the scale of the first edge.
spec fn edge_scale() -> int {
    6954488468732855548300039313199445906449888496290532094712420709006403034901718265449160746602271023256872070632369860339219827478136284145231640751513921905605510911696071849872826441812316534152620626189426266374552799115330537755317906448487977154957188982947941880368580610083387455019083712223838033135342156261780763005012672512int
}

/// `freq^24 * 2^a >= 440000^24 * 2^b`: the frequency reaches the note for
/// which `b - a == 2 * note - 139`.
spec fn reaches_scaled(freq: int, a: nat, b: nat) -> bool {
    pow24(freq) * pow2(a) >= pow24(CONCERT_PITCH as int) * pow2(b)
}

proof fn lemma_edge_scale()
    ensures
        pow2(1109) == edge_scale(),
{
    lemma2_to64();
    lemma_pow2_adds(64, 64);
    lemma_pow2_adds(128, 128);
    lemma_pow2_adds(256, 256);
    lemma_pow2_adds(512, 512);
    lemma_pow2_adds(1024, 64);
    lemma_pow2_adds(1088, 21);
    assert(pow2(1109) == edge_scale()) by (nonlinear_arith)
        requires
            pow2(64) == 0x10000000000000000,
            pow2(21) == 0x200000,
            pow2(128) == pow2(64) * pow2(64),
            pow2(256) == pow2(128) * pow2(128),
            pow2(512) == pow2(256) * pow2(256),
            pow2(1024) == pow2(512) * pow2(512),
            pow2(1088) == pow2(1024) * pow2(64),
            pow2(1109) == pow2(1088) * pow2(21),
    ;
}

/// Each entry of the table is the least whole number at or above its edge.
proof fn lemma_edges_are_exact(s: int)
    requires
        0 <= s <= 12,
    ensures
        pow24(semitone_edge(s)) >= pow24(CONCERT_PITCH as int) * pow2((2 * s + 1109) as nat),
        pow24(semitone_edge(s) - 1) < pow24(CONCERT_PITCH as int) * pow2((2 * s + 1109) as nat),
        semitone_edge(12) >= 2 * semitone_edge(0) - 1,
{
    lemma_edge_scale();
    lemma2_to64();
    lemma_pow2_adds(1109, (2 * s) as nat);
    if s == 0 {
        assert(pow24(35772316078918831145int) >= pow24(440000) * (edge_scale() * 1)) by (nonlinear_arith);
        assert(pow24(35772316078918831145int - 1) < pow24(440000) * (edge_scale() * 1)) by (nonlinear_arith);
    } else if s == 1 {
        assert(pow24(37899448685370116790int) >= pow24(440000) * (edge_scale() * 4)) by (nonlinear_arith);
        assert(pow24(37899448685370116790int - 1) < pow24(440000) * (edge_scale() * 4)) by (nonlinear_arith);
    } else if s == 2 {
        assert(pow24(40153067178713548911int) >= pow24(440000) * (edge_scale() * 16)) by (nonlinear_arith);
        assert(pow24(40153067178713548911int - 1) < pow24(440000) * (edge_scale() * 16)) by (nonlinear_arith);
    } else if s == 3 {
        assert(pow24(42540692801176514364int) >= pow24(440000) * (edge_scale() * 64)) by (nonlinear_arith);
        assert(pow24(42540692801176514364int - 1) < pow24(440000) * (edge_scale() * 64)) by (nonlinear_arith);
    } else if s == 4 {
        assert(pow24(45070294031322666223int) >= pow24(440000) * (edge_scale() * 256)) by (nonlinear_arith);
        assert(pow24(45070294031322666223int - 1) < pow24(440000) * (edge_scale() * 256)) by (nonlinear_arith);
    } else if s == 5 {
        assert(pow24(47750313178108388087int) >= pow24(440000) * (edge_scale() * 1024)) by (nonlinear_arith);
        assert(pow24(47750313178108388087int - 1) < pow24(440000) * (edge_scale() * 1024)) by (nonlinear_arith);
    } else if s == 6 {
        assert(pow24(50589694556304147316int) >= pow24(440000) * (edge_scale() * 4096)) by (nonlinear_arith);
        assert(pow24(50589694556304147316int - 1) < pow24(440000) * (edge_scale() * 4096)) by (nonlinear_arith);
    } else if s == 7 {
        assert(pow24(53597914337313586810int) >= pow24(440000) * (edge_scale() * 16384)) by (nonlinear_arith);
        assert(pow24(53597914337313586810int - 1) < pow24(440000) * (edge_scale() * 16384)) by (nonlinear_arith);
    } else if s == 8 {
        assert(pow24(56785012175014689142int) >= pow24(440000) * (edge_scale() * 65536)) by (nonlinear_arith);
        assert(pow24(56785012175014689142int - 1) < pow24(440000) * (edge_scale() * 65536)) by (nonlinear_arith);
    } else if s == 9 {
        assert(pow24(60161624712171318026int) >= pow24(440000) * (edge_scale() * 262144)) by (nonlinear_arith);
        assert(pow24(60161624712171318026int - 1) < pow24(440000) * (edge_scale() * 262144)) by (nonlinear_arith);
    } else if s == 10 {
        assert(pow24(63739021079239670922int) >= pow24(440000) * (edge_scale() * 1048576)) by (nonlinear_arith);
        assert(pow24(63739021079239670922int - 1) < pow24(440000) * (edge_scale() * 1048576)) by (nonlinear_arith);
    } else if s == 11 {
        assert(pow24(67529140504043609364int) >= pow24(440000) * (edge_scale() * 4194304)) by (nonlinear_arith);
        assert(pow24(67529140504043609364int - 1) < pow24(440000) * (edge_scale() * 4194304)) by (nonlinear_arith);
    } else {
        assert(pow24(71544632157837662290int) >= pow24(440000) * (edge_scale() * 16777216)) by (nonlinear_arith);
        assert(pow24(71544632157837662290int - 1) < pow24(440000) * (edge_scale() * 16777216)) by (nonlinear_arith);
    }
}

proof fn lemma_pow24_of_product(x: int, y: int)
    ensures
        pow24(x * y) == pow24(x) * pow24(y),
{
    let z = x * y;
    let (x2, y2, z2) = (x * x, y * y, z * z);
    assert(z2 == x2 * y2) by (nonlinear_arith)
        requires
            z == x * y,
            z2 == z * z,
            x2 == x * x,
            y2 == y * y,
    ;
    let (x4, y4, z4) = (x2 * x2, y2 * y2, z2 * z2);
    assert(z4 == x4 * y4) by (nonlinear_arith)
        requires
            z2 == x2 * y2,
            z4 == z2 * z2,
            x4 == x2 * x2,
            y4 == y2 * y2,
    ;
    let (x8, y8, z8) = (x4 * x4, y4 * y4, z4 * z4);
    assert(z8 == x8 * y8) by (nonlinear_arith)
        requires
            z4 == x4 * y4,
            z8 == z4 * z4,
            x8 == x4 * x4,
            y8 == y4 * y4,
    ;
    assert(z8 * z8 * z8 == (x8 * x8 * x8) * (y8 * y8 * y8)) by (nonlinear_arith)
        requires
            z8 == x8 * y8,
    ;
}

proof fn lemma_pow24_of_pow2(k: nat)
    ensures
        pow24(pow2(k) as int) == pow2(24 * k),
{
    lemma_pow2_adds(k, k);
    lemma_pow2_adds(2 * k, 2 * k);
    lemma_pow2_adds(4 * k, 4 * k);
    lemma_pow2_adds(8 * k, 8 * k);
    lemma_pow2_adds(16 * k, 8 * k);
    let w = pow2(k) as int;
    let w2 = w * w;
    let w4 = w2 * w2;
    let w8 = w4 * w4;
    assert(w2 == pow2(2 * k));
    assert(w4 == pow2(4 * k));
    assert(w8 == pow2(8 * k));
    assert(w8 * w8 == pow2(16 * k));
    assert(w8 * w8 * w8 == pow2(24 * k));
}

proof fn lemma_square_increases(a: int, b: int)
    requires
        0 <= a <= b,
    ensures
        0 <= a * a <= b * b,
{
    assert(0 <= a * a <= b * b) by (nonlinear_arith)
        requires
            0 <= a <= b,
    ;
}

proof fn lemma_pow24_increases(a: int, b: int)
    requires
        0 <= a <= b,
    ensures
        0 <= pow24(a) <= pow24(b),
        a > 0 ==> pow24(a) > 0,
{
    lemma_square_increases(a, b);
    lemma_square_increases(a * a, b * b);
    let (a4, b4) = ((a * a) * (a * a), (b * b) * (b * b));
    lemma_square_increases(a4, b4);
    let (a8, b8) = (a4 * a4, b4 * b4);
    assert(0 <= a8 * a8 * a8 <= b8 * b8 * b8) by (nonlinear_arith)
        requires
            0 <= a8 <= b8,
    ;
    if a > 0 {
        assert(a * a > 0) by (nonlinear_arith)
            requires
                a > 0,
        ;
        assert(a4 > 0) by (nonlinear_arith)
            requires
                a * a > 0,
                a4 == (a * a) * (a * a),
        ;
        assert(a8 * a8 * a8 > 0) by (nonlinear_arith)
            requires
                a4 > 0,
                a8 == a4 * a4,
        ;
    }
}

/// Only the difference of the two exponents matters.
proof fn lemma_rescale(freq: int, a: nat, b: nat, a2: nat, b2: nat)
    requires
        a + b2 == a2 + b,
    ensures
        reaches_scaled(freq, a, b) == reaches_scaled(freq, a2, b2),
{
    let x = pow24(freq);
    let y = pow24(CONCERT_PITCH as int);
    let (ua, ub) = (pow2(a) as int, pow2(b) as int);
    let (va, vb) = (pow2(a2) as int, pow2(b2) as int);
    lemma_pow2_pos(a);
    lemma_pow2_pos(a2);
    lemma_pow2_adds(a, b2);
    lemma_pow2_adds(a2, b);
    let m = x * ua - y * ub;
    let l = x * va - y * vb;
    assert(m * va == l * ua) by (nonlinear_arith)
        requires
            m == x * ua - y * ub,
            l == x * va - y * vb,
            ua * vb == va * ub,
    ;
    assert((m >= 0) == (m * va >= 0)) by (nonlinear_arith)
        requires
            va > 0,
    ;
    assert((l >= 0) == (l * ua >= 0)) by (nonlinear_arith)
        requires
            ua > 0,
    ;
}

/// `reaches_note` in its scaled form.
proof fn lemma_reaches_note_scaled(freq: int, note: int, a: nat, b: nat)
    requires
        b - a == 2 * note - 139,
    ensures
        reaches_note(freq, note) == reaches_scaled(freq, a, b),
{
    lemma2_to64();
    if 2 * note >= 139 {
        lemma_rescale(freq, 0, (2 * note - 139) as nat, a, b);
        assert(pow24(freq) * 1 == pow24(freq));
    } else {
        lemma_rescale(freq, (139 - 2 * note) as nat, 0, a, b);
        assert(pow24(CONCERT_PITCH as int) * 1 == pow24(CONCERT_PITCH as int));
    }
}

/// A frequency that reaches a note reaches every lower note.
pub proof fn lemma_reaches_lower_notes(freq: int, note: int, lower: int)
    requires
        reaches_note(freq, note),
        lower <= note,
    ensures
        reaches_note(freq, lower),
{
    let base = if 2 * lower >= 139 {
        0
    } else {
        139 - 2 * lower
    };
    let a = base as nat;
    let b = (2 * note - 139 + a) as nat;
    let c = (2 * lower - 139 + a) as nat;
    lemma_reaches_note_scaled(freq, note, a, b);
    lemma_reaches_note_scaled(freq, lower, a, c);
    if c < b {
        lemma_pow2_strictly_increases(c, b);
    }
    lemma_pow24_increases(CONCERT_PITCH as int, CONCERT_PITCH as int);
    let y = pow24(CONCERT_PITCH as int);
    assert(y * pow2(c) <= y * pow2(b)) by (nonlinear_arith)
        requires
            0 <= y,
            pow2(c) <= pow2(b),
    ;
}

/// A frequency has at most one nearest note.
pub proof fn lemma_note_is_unique(freq: int, a: int, b: int)
    requires
        is_note_of(freq, a),
        is_note_of(freq, b),
    ensures
        a == b,
{
    if a < b {
        lemma_reaches_lower_notes(freq, b, a + 1);
    } else if b < a {
        lemma_reaches_lower_notes(freq, a, b + 1);
    }
}

/// The reference frequency of 440 Hz is note 69, and 880 Hz, one octave
/// above it, is note 81.
pub proof fn lemma_concert_pitch_is_note_69()
    ensures
        is_note_of(CONCERT_PITCH as int, CONCERT_NOTE as int),
        is_note_of(2 * CONCERT_PITCH, CONCERT_NOTE + 12),
{
    lemma_concert_pitch();
    lemma_octave_is_twelve_semitones(CONCERT_PITCH as int, CONCERT_NOTE as int);
}

proof fn lemma_concert_pitch()
    ensures
        is_note_of(CONCERT_PITCH as int, CONCERT_NOTE as int),
{
    lemma2_to64();
    lemma_pow24_increases(CONCERT_PITCH as int, CONCERT_PITCH as int);
    let y = pow24(CONCERT_PITCH as int);
    assert(y * pow2(1) == y + y) by (nonlinear_arith)
        requires
            pow2(1) == 2,
    ;
}

/// Doubling a frequency raises its note by one octave of twelve semitones.
pub proof fn lemma_octave_is_twelve_semitones(freq: int, note: int)
    requires
        is_note_of(freq, note),
    ensures
        is_note_of(2 * freq, note + 12),
{
    lemma_doubling_reaches(freq, note);
    lemma_doubling_reaches(freq, note + 1);
}

proof fn lemma_doubling_reaches(freq: int, note: int)
    ensures
        reaches_note(2 * freq, note + 12) == reaches_note(freq, note),
{
    let base = if 2 * note >= 139 {
        0
    } else {
        139 - 2 * note
    };
    let a = base as nat;
    let b = (2 * note - 139 + a) as nat;
    lemma_reaches_note_scaled(freq, note, a + 24, b + 24);
    lemma_reaches_note_scaled(2 * freq, note + 12, a, b + 24);
    lemma2_to64();
    lemma_pow24_of_pow2(1);
    lemma_pow24_of_product(freq, 2);
    lemma_pow2_adds(a, 24);
    assert(freq * 2 == 2 * freq);
    let x = pow24(freq);
    assert((x * pow2(24)) * pow2(a) == x * (pow2(a) * pow2(24))) by (nonlinear_arith);
}

/// The note of a frequency, read off its scaled form: `scaled` is the
/// frequency doubled `k` times, and it lies between the edges `s` and `s + 1`
/// of the table.
proof fn lemma_note_from_scaled(freq: int, k: nat, scaled: int, s: int)
    requires
        1 <= freq,
        scaled == freq * pow2(k),
        0 <= s <= 11,
        semitone_edge(s) <= scaled < semitone_edge(s + 1),
    ensures
        is_note_of(freq, 12 * (52 - k) + s),
{
    let note = 12 * (52 - k) + s;
    let y = pow24(CONCERT_PITCH as int);
    lemma_edges_are_exact(s);
    lemma_edges_are_exact(s + 1);
    lemma_pow24_of_product(freq, pow2(k) as int);
    lemma_pow24_of_pow2(k);
    lemma_pow24_increases(semitone_edge(s), scaled);
    lemma_pow24_increases(scaled, semitone_edge(s + 1) - 1);
    lemma_reaches_note_scaled(freq, note, 24 * k, (2 * s + 1109) as nat);
    lemma_reaches_note_scaled(freq, note + 1, 24 * k, (2 * (s + 1) + 1109) as nat);
}

/// The table of scaled note edges.
fn edge(s: usize) -> (e: u128)
    requires
        s <= 12,
    ensures
        e == semitone_edge(s as int),
{
    match s {
        0 => 35772316078918831145,
        1 => 37899448685370116790,
        2 => 40153067178713548911,
        3 => 42540692801176514364,
        4 => 45070294031322666223,
        5 => 47750313178108388087,
        6 => 50589694556304147316,
        7 => 53597914337313586810,
        8 => 56785012175014689142,
        9 => 60161624712171318026,
        10 => 63739021079239670922,
        11 => 67529140504043609364,
        _ => 71544632157837662290,
    }
}

/// The note nearest to a frequency of `freq` millihertz on the equal-tempered
/// scale with A4 = 440 Hz at note 69: `round(12 * log2(freq / 440 Hz) + 69)`.
/// The result is exact for every frequency.
pub fn frequency_to_note(freq: u64) -> (note: i32)
    requires
        freq > 0,
    ensures
        is_note_of(freq as int, note as int),
        note == nearest_note(freq as int),
        -156 <= note <= 624,
{
    let first = edge(0);
    let mut scaled: u128 = freq as u128;
    let mut k: i32 = 0;
    proof {
        lemma2_to64();
        assert(freq as int * 1 == freq);
    }
    while scaled < first
        invariant
            first == semitone_edge(0),
            0 <= k <= 65,
            1 <= freq,
            scaled == freq * pow2(k as nat),
            k == 0 ==> scaled == freq,
            k > 0 ==> scaled <= 2 * semitone_edge(0) - 2,
        decreases 65 - k,
    {
        proof {
            let e = k as nat;
            lemma_pow2_pos(e);
            assert(freq * pow2(e) >= pow2(e)) by (nonlinear_arith)
                requires
                    freq >= 1,
                    pow2(e) > 0,
            ;
            lemma2_to64();
            lemma_pow2_unfold(65);
            if e > 65 {
                lemma_pow2_strictly_increases(65, e);
            }
            assert(e < 65);
            assert(scaled >= 1);
            lemma_pow2_unfold(e + 1);
            assert(freq * (2 * pow2(e)) == 2 * (freq * pow2(e))) by (nonlinear_arith);
        }
        scaled = scaled * 2;
        k = k + 1;
    }
    proof {
        lemma_edges_are_exact(0);
    }
    let mut s: usize = 0;
    while s < 11 && scaled >= edge(s + 1)
        invariant
            s <= 11,
            semitone_edge(s as int) <= scaled < semitone_edge(12),
        decreases 11 - s,
    {
        s = s + 1;
    }
    proof {
        lemma_note_from_scaled(freq as int, k as nat, scaled as int, s as int);
        lemma_note_is_unique(freq as int, 12 * (52 - k) + s, nearest_note(freq as int));
    }
    12 * (52 - k) + s as i32
}

/// The offset of a key from C, in semitones.
pub fn key_offset(key: Key) -> (offset: i32)
    ensures
        offset == key_offset_of(key),
        -5 <= offset <= 6,
{
    match key {
        Key::C => 0,
        Key::Db => 1,
        Key::D => 2,
        Key::Eb => 3,
        Key::E => 4,
        Key::F => 5,
        Key::Gb => 6,
        Key::G => -5,
        Key::Ab => -4,
        Key::A => -3,
        Key::Bb => -2,
        Key::B => -1,
    }
}

/// The key with the given name, or nothing if no supported key has that
/// name.
pub fn key_from_name(name: &str) -> (key: Option<Key>)
    ensures
        key == key_named(name.spec_bytes()),
{
    let bytes = name.as_bytes();
    if bytes.len() == 1 {
        match bytes[0] {
            67 => Some(Key::C),
            68 => Some(Key::D),
            69 => Some(Key::E),
            70 => Some(Key::F),
            71 => Some(Key::G),
            65 => Some(Key::A),
            66 => Some(Key::B),
            _ => None,
        }
    } else if bytes.len() == 2 && bytes[1] == 98 {
        match bytes[0] {
            68 => Some(Key::Db),
            69 => Some(Key::Eb),
            71 => Some(Key::Gb),
            65 => Some(Key::Ab),
            66 => Some(Key::Bb),
            _ => None,
        }
    } else {
        None
    }
}

/// The name of a key.
pub fn key_name(key: Key) -> (name: &'static str)
    ensures
        name@ == name_of(key),
{
    match key {
        Key::C => "C",
        Key::Db => "Db",
        Key::D => "D",
        Key::Eb => "Eb",
        Key::E => "E",
        Key::F => "F",
        Key::Gb => "Gb",
        Key::G => "G",
        Key::Ab => "Ab",
        Key::A => "A",
        Key::Bb => "Bb",
        Key::B => "B",
    }
}

/// The tablature label at `index`.
pub fn tab_label(index: i64) -> (label: &'static str)
    ensures
        label@ == label_of(index as int),
{
    match index {
        0 => "1",
        1 => "-1'",
        2 => "-1",
        3 => "1o",
        4 => "2",
        5 => "-2''",
        6 => "-2'",
        7 => "-2",
        8 => "-3'''",
        9 => "-3''",
        10 => "-3'",
        11 => "-3",
        12 => "4",
        13 => "-4'",
        14 => "-4",
        15 => "4o",
        16 => "5",
        17 => "-5",
        18 => "5o",
        19 => "6",
        20 => "-6'",
        21 => "-6",
        22 => "6o",
        23 => "-7",
        24 => "7",
        25 => "-7o",
        26 => "-8",
        27 => "8'",
        28 => "8",
        29 => "-9",
        30 => "9'",
        31 => "9",
        32 => "-9o",
        33 => "-10",
        34 => "10''",
        35 => "10'",
        _ => "",
    }
}

/// The tablature label of `note` on an instrument in `key`: the table entry at
/// `note - 60 - key_offset(key)`, or the empty label when that position lies
/// outside the table.
pub fn note_to_label(note: i32, key: Key) -> (label: &'static str)
    ensures
        label@ == label_of(tab_index(note as int, key)),
        (label@.len() > 0) == (0 <= tab_index(note as int, key) < TABLATURE_LEN),
{
    proof {
        lemma_label_is_empty_outside_table(tab_index(note as int, key));
    }
    let index: i64 = note as i64 - 60 - key_offset(key) as i64;
    tab_label(index)
}

} // verus!
