use vstd::prelude::*;

verus! {

/// The escape byte that starts a terminal key sequence.
pub const ESC: u8 = 27;

/// ASCII `[`.
pub const OPEN_BRACKET: u8 = 91;

/// ASCII `(`.
pub const OPEN_PAREN: u8 = 40;

/// ASCII `)`.
pub const CLOSE_PAREN: u8 = 41;

/// ASCII `#`.
pub const HASH: u8 = 35;

/// ASCII `0`.
pub const DIGIT_ZERO: u8 = 48;

/// ASCII `9`.
pub const DIGIT_NINE: u8 = 57;

/// ASCII `a`.
pub const LOWER_A: u8 = 97;

/// ASCII `z`.
pub const LOWER_Z: u8 = 122;

/// ASCII `A`.
pub const UPPER_A: u8 = 65;

/// ASCII `Z`.
pub const UPPER_Z: u8 = 90;

/// How far a key read has got.
#[derive(Clone, Copy, PartialEq, Eq, Structural, Debug)]
pub enum ReadState {
    /// Nothing read yet.
    Start,
    /// An escape byte read.
    AfterEscape,
    /// Inside a control sequence: skipping up to its final letter.
    SkipToLetter,
    /// After an escape and one of `(`, `)`, `#`: one byte to skip.
    SkipOne,
    /// The next byte is the key.
    TakeNext,
}

/// What one step of a key read yields: the key (0 when the input ended),
/// or the state in which to read the next byte.
#[derive(Clone, Copy, PartialEq, Eq, Structural, Debug)]
pub enum ReadStep {
    Key(u8),
    More(ReadState),
}

/// Whether `b` is an ASCII letter.
pub open spec fn is_letter(b: u8) -> bool {
    (LOWER_A <= b && b <= LOWER_Z) || (UPPER_A <= b && b <= UPPER_Z)
}

/// Whether `b` is an ASCII digit.
pub open spec fn is_digit(b: u8) -> bool {
    DIGIT_ZERO <= b && b <= DIGIT_NINE
}

/// The step of a key read in state `s` when the next byte is `input`
/// (`None` when the input has ended).
pub open spec fn step_spec(s: ReadState, input: Option<u8>) -> ReadStep {
    match input {
        None => ReadStep::Key(0),
        Some(b) => match s {
            ReadState::Start => if b == ESC {
                ReadStep::More(ReadState::AfterEscape)
            } else {
                ReadStep::Key(b)
            },
            ReadState::AfterEscape => if b == OPEN_BRACKET || is_digit(b) {
                ReadStep::More(ReadState::SkipToLetter)
            } else if b == OPEN_PAREN || b == CLOSE_PAREN || b == HASH {
                ReadStep::More(ReadState::SkipOne)
            } else {
                ReadStep::More(ReadState::TakeNext)
            },
            ReadState::SkipToLetter => if is_letter(b) {
                ReadStep::More(ReadState::TakeNext)
            } else {
                ReadStep::More(ReadState::SkipToLetter)
            },
            ReadState::SkipOne => ReadStep::More(ReadState::TakeNext),
            ReadState::TakeNext => ReadStep::Key(b),
        },
    }
}

/// One step of a key read: takes the next byte (`None` when the input has
/// ended) and says whether the key is known or what to read next.
pub fn read_step(s: ReadState, input: Option<u8>) -> (r: ReadStep)
    ensures
        r == step_spec(s, input),
{
    match input {
        None => ReadStep::Key(0),
        Some(b) => match s {
            ReadState::Start => {
                if b == ESC {
                    ReadStep::More(ReadState::AfterEscape)
                } else {
                    ReadStep::Key(b)
                }
            },
            ReadState::AfterEscape => {
                if b == OPEN_BRACKET || (b >= DIGIT_ZERO && b <= DIGIT_NINE) {
                    ReadStep::More(ReadState::SkipToLetter)
                } else if b == OPEN_PAREN || b == CLOSE_PAREN || b == HASH {
                    ReadStep::More(ReadState::SkipOne)
                } else {
                    ReadStep::More(ReadState::TakeNext)
                }
            },
            ReadState::SkipToLetter => {
                if (b >= LOWER_A && b <= LOWER_Z) || (b >= UPPER_A && b <= UPPER_Z) {
                    ReadStep::More(ReadState::TakeNext)
                } else {
                    ReadStep::More(ReadState::SkipToLetter)
                }
            },
            ReadState::SkipOne => ReadStep::More(ReadState::TakeNext),
            ReadState::TakeNext => ReadStep::Key(b),
        },
    }
}

/// The key that a read from state `s` yields on input `bytes`, after
/// which the input ends.
pub open spec fn run(s: ReadState, bytes: Seq<u8>) -> u8
    decreases bytes.len(),
{
    if bytes.len() == 0 {
        0
    } else {
        match step_spec(s, Some(bytes[0])) {
            ReadStep::Key(k) => k,
            ReadStep::More(next) => run(next, bytes.drop_first()),
        }
    }
}

/// The byte after the first letter at or after index `i` of `bytes`, or 0
/// when there is no such letter or no byte after it.
pub open spec fn after_letter(bytes: Seq<u8>, i: int) -> u8
    decreases bytes.len() - i,
{
    if i < 0 || i >= bytes.len() {
        0
    } else if is_letter(bytes[i]) {
        if i + 1 < bytes.len() {
            bytes[i + 1]
        } else {
            0
        }
    } else {
        after_letter(bytes, i + 1)
    }
}

/// The key read from `bytes`: a byte other than escape is the key itself;
/// after an escape and `[` or a digit, the byte after the sequence's final
/// letter; after an escape and `(`, `)` or `#`, the byte after the next
/// one; after an escape and any other byte, the byte after it. 0 when the
/// input ends first.
pub open spec fn key_of(bytes: Seq<u8>) -> u8 {
    if bytes.len() == 0 {
        0
    } else if bytes[0] != ESC {
        bytes[0]
    } else if bytes.len() < 2 {
        0
    } else if bytes[1] == OPEN_BRACKET || is_digit(bytes[1]) {
        after_letter(bytes, 2)
    } else if bytes[1] == OPEN_PAREN || bytes[1] == CLOSE_PAREN || bytes[1] == HASH {
        if bytes.len() >= 4 {
            bytes[3]
        } else {
            0
        }
    } else if bytes.len() >= 3 {
        bytes[2]
    } else {
        0
    }
}

proof fn lemma_skip_to_letter(bytes: Seq<u8>, i: int)
    requires
        0 <= i <= bytes.len(),
    ensures
        run(ReadState::SkipToLetter, bytes.subrange(i, bytes.len() as int)) == after_letter(bytes, i),
    decreases bytes.len() - i,
{
    reveal_with_fuel(run, 3);
    let rest = bytes.subrange(i, bytes.len() as int);
    if i < bytes.len() {
        assert(rest[0] == bytes[i]);
        assert(rest.drop_first() =~= bytes.subrange(i + 1, bytes.len() as int));
        if is_letter(bytes[i]) {
            if i + 1 < bytes.len() {
                assert(rest.drop_first()[0] == bytes[i + 1]);
            }
        } else {
            lemma_skip_to_letter(bytes, i + 1);
        }
    }
}

/// Feeding the bytes of `bytes` one by one to `read_step`, from the start
/// state, yields `key_of(bytes)` (with the input ending after them).
pub proof fn lemma_read_yields_key(bytes: Seq<u8>)
    ensures
        run(ReadState::Start, bytes) == key_of(bytes),
{
    reveal_with_fuel(run, 5);
    if bytes.len() >= 2 && bytes[0] == ESC {
        let r1 = bytes.drop_first();
        let r2 = r1.drop_first();
        assert(r1[0] == bytes[1]);
        assert(r2 =~= bytes.subrange(2, bytes.len() as int));
        if bytes[1] == OPEN_BRACKET || is_digit(bytes[1]) {
            lemma_skip_to_letter(bytes, 2);
        } else if bytes[1] == OPEN_PAREN || bytes[1] == CLOSE_PAREN || bytes[1] == HASH {
            if bytes.len() >= 3 {
                let r3 = r2.drop_first();
                if bytes.len() >= 4 {
                    assert(r3[0] == bytes[3]);
                }
            }
        } else if bytes.len() >= 3 {
            assert(r2[0] == bytes[2]);
        }
    }
}

} // verus!
