use vstd::prelude::*;

use crate::text::{decimal, digit_char, push_char, push_signed_decimal, signed_decimal};

verus! {

/// Name of a pitch class (`0` is C, `11` is B), with `#` for sharps.
pub open spec fn pitch_class_name(pc: nat) -> Seq<char> {
    if pc == 0 {
        seq!['C']
    } else if pc == 1 {
        seq!['C', '#']
    } else if pc == 2 {
        seq!['D']
    } else if pc == 3 {
        seq!['D', '#']
    } else if pc == 4 {
        seq!['E']
    } else if pc == 5 {
        seq!['F']
    } else if pc == 6 {
        seq!['F', '#']
    } else if pc == 7 {
        seq!['G']
    } else if pc == 8 {
        seq!['G', '#']
    } else if pc == 9 {
        seq!['A']
    } else if pc == 10 {
        seq!['A', '#']
    } else {
        seq!['B']
    }
}

/// Scientific pitch notation of a MIDI note: MIDI 60 is `C4`, MIDI 69 is `A4`,
/// MIDI 0 is `C-1`.
pub open spec fn note_name(midi: u8) -> Seq<char> {
    pitch_class_name((midi % 12) as nat) + signed_decimal(midi / 12 - 1)
}

fn push_pitch_class(out: &mut String, pc: u8)
    requires
        pc < 12,
    ensures
        final(out)@ == old(out)@ + pitch_class_name(pc as nat),
{
    let (letter, sharp) = match pc {
        0 => ('C', false),
        1 => ('C', true),
        2 => ('D', false),
        3 => ('D', true),
        4 => ('E', false),
        5 => ('F', false),
        6 => ('F', true),
        7 => ('G', false),
        8 => ('G', true),
        9 => ('A', false),
        10 => ('A', true),
        _ => ('B', false),
    };
    push_char(out, letter);
    if sharp {
        push_char(out, '#');
    }
    assert(final(out)@ =~= old(out)@ + pitch_class_name(pc as nat));
}

/// Full note name from a MIDI note number, such as `A4` for 69.
pub fn midi_to_note_name(midi: u8) -> (name: String)
    ensures
        name@ == note_name(midi),
{
    let mut name = String::new();
    push_pitch_class(&mut name, midi % 12);
    let octave: i64 = (midi / 12) as i64 - 1;
    push_signed_decimal(&mut name, octave);
    assert(name@ =~= note_name(midi));
    name
}

/// The MIDI note for a rounded, possibly out-of-range note number:
/// values are clamped to the MIDI range `0..=127`.
pub fn clamp_midi_note(rounded: i32) -> (note: u8)
    ensures
        note as int == if rounded < 0 {
            0
        } else if rounded > 127 {
            127
        } else {
            rounded as int
        },
{
    if rounded < 0 {
        0
    } else if rounded > 127 {
        127
    } else {
        rounded as u8
    }
}

proof fn lemma_pitch_class_shape(pc: nat)
    requires
        pc < 12,
    ensures
        1 <= pitch_class_name(pc).len() <= 2,
        pitch_class_name(pc).len() == 2 ==> pitch_class_name(pc)[1] == '#',
        pitch_class_name(pc)[0] != '#',
{
}

/// The pitch class that a pitch-class name spells: the letter's class,
/// one higher with a sharp.
spec fn pitch_class_of(name: Seq<char>) -> int {
    let base = if name[0] == 'C' {
        0int
    } else if name[0] == 'D' {
        2
    } else if name[0] == 'E' {
        4
    } else if name[0] == 'F' {
        5
    } else if name[0] == 'G' {
        7
    } else if name[0] == 'A' {
        9
    } else {
        11
    };
    if name.len() == 2 {
        base + 1
    } else {
        base
    }
}

proof fn lemma_pitch_class_spelled(p: nat)
    requires
        p < 12,
    ensures
        pitch_class_of(pitch_class_name(p)) == p,
{
    if p == 0 {
        assert(pitch_class_name(p)[0] == 'C');
    } else if p == 1 {
        assert(pitch_class_name(p)[0] == pitch_class_name(1)[0]);
    } else if p == 2 {
        assert(pitch_class_name(p)[0] == pitch_class_name(2)[0]);
    } else if p == 3 {
        assert(pitch_class_name(p)[0] == pitch_class_name(3)[0]);
    } else if p == 4 {
        assert(pitch_class_name(p)[0] == pitch_class_name(4)[0]);
    } else if p == 5 {
        assert(pitch_class_name(p)[0] == pitch_class_name(5)[0]);
    } else if p == 6 {
        assert(pitch_class_name(p)[0] == pitch_class_name(6)[0]);
    } else if p == 7 {
        assert(pitch_class_name(p)[0] == pitch_class_name(7)[0]);
    } else if p == 8 {
        assert(pitch_class_name(p)[0] == pitch_class_name(8)[0]);
    } else if p == 9 {
        assert(pitch_class_name(p)[0] == pitch_class_name(9)[0]);
    } else if p == 10 {
        assert(pitch_class_name(p)[0] == pitch_class_name(10)[0]);
    } else if p == 11 {
        assert(pitch_class_name(p)[0] == pitch_class_name(11)[0]);
    }
}

proof fn lemma_pitch_classes_distinct(p: nat, q: nat)
    requires
        p < 12,
        q < 12,
        pitch_class_name(p) == pitch_class_name(q),
    ensures
        p == q,
{
    lemma_pitch_class_spelled(p);
    lemma_pitch_class_spelled(q);
}

proof fn lemma_octave_text(o: int)
    requires
        -1 <= o <= 20,
    ensures
        o < 0 ==> signed_decimal(o) == seq!['-', '1'],
        0 <= o < 10 ==> signed_decimal(o) == seq![digit_char(o as nat)],
        10 <= o ==> signed_decimal(o) == seq![digit_char((o / 10) as nat), digit_char((o % 10) as nat)],
        signed_decimal(o)[0] != '#',
{
    if o < 0 {
        assert(decimal(1) == seq![digit_char(1)]);
        assert(seq!['-'] + seq![digit_char(1)] =~= seq!['-', '1']);
    } else if o >= 10 {
        assert(decimal((o / 10) as nat) == seq![digit_char((o / 10) as nat)]);
        assert(decimal(o as nat) =~= seq![digit_char((o / 10) as nat), digit_char((o % 10) as nat)]);
    }
}

/// Distinct MIDI notes have distinct names.
pub proof fn lemma_note_names_distinct(a: u8, b: u8)
    requires
        note_name(a) == note_name(b),
    ensures
        a == b,
{
    let pa = pitch_class_name((a % 12) as nat);
    let pb = pitch_class_name((b % 12) as nat);
    let oa = a / 12 - 1;
    let ob = b / 12 - 1;
    let da = signed_decimal(oa);
    let db = signed_decimal(ob);
    let name = note_name(a);
    lemma_pitch_class_shape((a % 12) as nat);
    lemma_pitch_class_shape((b % 12) as nat);
    lemma_octave_text(oa);
    lemma_octave_text(ob);
    assert(name == pa + da);
    assert(name == pb + db);
    assert(pa.len() == pb.len()) by {
        if pa.len() == 2 && pb.len() == 1 {
            assert(name[1] == pa[1]);
            assert(name[1] == db[0]);
        } else if pa.len() == 1 && pb.len() == 2 {
            assert(name[1] == da[0]);
            assert(name[1] == pb[1]);
        }
    }
    assert(pa =~= name.take(pa.len() as int));
    assert(pb =~= name.take(pb.len() as int));
    assert(da =~= name.skip(pa.len() as int));
    assert(db =~= name.skip(pb.len() as int));
    lemma_pitch_classes_distinct((a % 12) as nat, (b % 12) as nat);
    assert(oa == ob) by {
        assert(da.len() == db.len());
        if oa < 0 || ob < 0 {
            if oa >= 0 {
                assert(da[0] == db[0]);
            } else if ob >= 0 {
                assert(da[0] == db[0]);
            }
        } else if oa < 10 {
            assert(da[0] == db[0]);
        } else {
            assert(da[0] == db[0]);
            assert(da[1] == db[1]);
        }
    }
}

} // verus!
