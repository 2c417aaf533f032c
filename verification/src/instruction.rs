use vstd::prelude::*;

verus! {

/// One instruction of the tape language.
#[derive(Copy, Clone, Debug, PartialEq, Eq, Structural)]
pub enum Instruction {
    Left,
    Right,
    Increment,
    Decrement,
    Output,
    Input,
    BeginLoop,
    EndLoop,
}

impl Instruction {
    /// The instruction that a character of source text stands for, if any.
    pub open spec fn decode(a: char) -> Option<Instruction> {
        if a == '<' {
            Some(Instruction::Left)
        } else if a == '>' {
            Some(Instruction::Right)
        } else if a == '+' {
            Some(Instruction::Increment)
        } else if a == '-' {
            Some(Instruction::Decrement)
        } else if a == '.' {
            Some(Instruction::Output)
        } else if a == ',' {
            Some(Instruction::Input)
        } else if a == '[' {
            Some(Instruction::BeginLoop)
        } else if a == ']' {
            Some(Instruction::EndLoop)
        } else {
            None
        }
    }

    /// Decodes one character; every character but the eight symbols gives
    /// `None`.
    pub fn from_char(a: char) -> (decoded: Option<Self>)
        ensures
            decoded == Self::decode(a),
    {
        match a {
            '<' => Some(Self::Left),
            '>' => Some(Self::Right),
            '+' => Some(Self::Increment),
            '-' => Some(Self::Decrement),
            '.' => Some(Self::Output),
            ',' => Some(Self::Input),
            '[' => Some(Self::BeginLoop),
            ']' => Some(Self::EndLoop),
            _ => None,
        }
    }

    /// What the instruction adds to the nesting depth: a loop opens at
    /// `BeginLoop` and closes at `EndLoop`.
    pub open spec fn bracket_weight(self) -> int {
        match self {
            Instruction::BeginLoop => 1,
            Instruction::EndLoop => -1,
            _ => 0,
        }
    }
}

/// The instructions of a source text, in order: the characters that are no
/// instruction symbol are dropped.
pub open spec fn parse(text: Seq<char>) -> Seq<Instruction> {
    text.filter_map(|a: char| Instruction::decode(a))
}

} // verus!
