//! Shared data model: instructions, compiled programs, cell widths,
//! tape policies and the parse error taxonomy.

use vstd::prelude::*;

verus! {

/// One instruction of the tape machine.
///
/// Branch targets are absolute indices into the instruction sequence and
/// always point at the *matching* bracket instruction's own index; the
/// interpreter decides the actual jump destination.
#[derive(Debug, Clone, Copy, PartialEq, Eq, Structural)]
pub enum Instr {
    /// `>` - move the data pointer one cell to the right
    MovePointerForward,
    /// `<` - move the data pointer one cell to the left
    MovePointerBackward,
    /// `+` - increment the cell at the data pointer, wrapping
    IncrementCell,
    /// `-` - decrement the cell at the data pointer, wrapping
    DecrementCell,
    /// `.` - emit the cell at the data pointer
    OutputCell,
    /// `,` - read one byte into the cell at the data pointer
    InputCell,
    /// `[` - if the cell is zero, jump past the matching `]` at the given index
    BranchIfZero(usize),
    /// `]` - if the cell is non-zero, jump back to the matching `[` at the given index
    BranchIfNonZero(usize),
}

/// Well-formedness of a single instruction within a program: a branch
/// carries the index of its uniquely matching partner, which points back.
pub open spec fn instr_wf_at(p: Seq<Instr>, i: int) -> bool {
    match p[i] {
        Instr::BranchIfZero(t) => i < t < p.len() && p[t as int] == Instr::BranchIfNonZero(i as usize),
        Instr::BranchIfNonZero(t) => 0 <= t < i && p[t as int] == Instr::BranchIfZero(i as usize),
        _ => true,
    }
}

/// The program invariant: every branch target lies inside the program and
/// the two instructions of a bracket pair reference each other.
pub open spec fn bytecode_wf(p: Seq<Instr>) -> bool {
    forall|i: int| 0 <= i < p.len() ==> #[trigger] instr_wf_at(p, i)
}

/// A compiled program: an ordered sequence of instructions with all branch
/// targets resolved. Produced once by the parser, read-only afterwards.
#[derive(Debug, Clone)]
pub struct Bytecode {
    pub instrs: Vec<Instr>,
}

impl Bytecode {
    /// The program invariant, see [`bytecode_wf`].
    pub open spec fn wf(&self) -> bool {
        bytecode_wf(self.instrs@)
    }
}

/// The bit width of a tape cell; it bounds the integer range per cell and
/// fixes the wraparound modulus of cell arithmetic.
#[derive(Debug, Clone, Copy, PartialEq, Eq, Structural)]
pub enum CellSize {
    /// 8-bit cells (0-255)
    Bits8,
    /// 16-bit cells (0-65535)
    Bits16,
    /// 32-bit cells (0-4294967295)
    Bits32,
    /// 64-bit cells (0-18446744073709551615)
    Bits64,
}

impl CellSize {
    /// The largest value a cell of this width can hold.
    pub open spec fn spec_max_value(self) -> u64 {
        match self {
            CellSize::Bits8 => 0xff,
            CellSize::Bits16 => 0xffff,
            CellSize::Bits32 => 0xffff_ffff,
            CellSize::Bits64 => 0xffff_ffff_ffff_ffff,
        }
    }

    /// The wraparound modulus of cell arithmetic, `2^width`.
    pub open spec fn modulus(self) -> int {
        self.spec_max_value() + 1
    }

    /// Get the maximum value for this cell size.
    #[verifier::when_used_as_spec(spec_max_value)]
    pub fn max_value(self) -> (r: u64)
        ensures
            r == self.spec_max_value(),
    {
        match self {
            CellSize::Bits8 => u8::MAX as u64,
            CellSize::Bits16 => u16::MAX as u64,
            CellSize::Bits32 => u32::MAX as u64,
            CellSize::Bits64 => u64::MAX,
        }
    }

    /// Reduction of a value modulo `2^width`.
    pub open spec fn spec_mask(self, value: u64) -> u64 {
        ((value as int) % self.modulus()) as u64
    }

    /// Mask a value to fit within this cell size.
    pub fn mask(self, value: u64) -> (r: u64)
        ensures
            r == self.spec_mask(value),
            r <= self.spec_max_value(),
    {
        proof {
            match self {
                CellSize::Bits8 => {
                    assert(value & 0xffu64 == value % 0x100u64) by (bit_vector);
                },
                CellSize::Bits16 => {
                    assert(value & 0xffffu64 == value % 0x10000u64) by (bit_vector);
                },
                CellSize::Bits32 => {
                    assert(value & 0xffff_ffffu64 == value % 0x1_0000_0000u64) by (bit_vector);
                },
                CellSize::Bits64 => {
                    assert(value & 0xffff_ffff_ffff_ffffu64 == value) by (bit_vector);
                    assert((value as int) % 0x1_0000_0000_0000_0000 == value as int) by {
                        vstd::arithmetic::div_mod::lemma_small_mod(value as nat, 0x1_0000_0000_0000_0000);
                    };
                },
            }
        }
        value & self.max_value()
    }

    /// The character a cell value renders as, defined only for 8-bit cells;
    /// wider widths render as decimal numerals instead and yield `None`.
    pub open spec fn spec_to_char(self, value: u64) -> Option<char> {
        if self is Bits8 {
            Some(((value % 256) as u8) as char)
        } else {
            None
        }
    }

    /// Convert a value to a character for output (only valid for 8-bit).
    pub fn to_char(self, value: u64) -> (r: Option<char>)
        ensures
            r == self.spec_to_char(value),
    {
        match self {
            CellSize::Bits8 => {
                let masked = self.mask(value) as u8;
                Some(masked as char)
            },
            _ => None,
        }
    }
}

/// The default tape length, in cells.
pub const DEFAULT_TAPE_SIZE: usize = 30000;

/// How the tape behaves at its ends.
#[derive(Debug, Clone, Copy, PartialEq, Eq, Structural)]
pub enum TapePolicy {
    /// A fixed-size tape; the data pointer wraps around at both ends.
    FixedWrap(usize),
    /// A tape that starts at the given length and doubles, zero-filling,
    /// whenever the data pointer moves past its end. Moving left from
    /// index 0 wraps to the current last index.
    GrowOnDemand(usize),
}

impl TapePolicy {
    /// A tape must have at least one cell for pointer wrap and doubling
    /// growth to be meaningful.
    pub open spec fn wf(self) -> bool {
        match self {
            TapePolicy::FixedWrap(size) => size >= 1,
            TapePolicy::GrowOnDemand(initial) => initial >= 1,
        }
    }

    /// The tape length an execution starts with.
    pub open spec fn initial_len(self) -> usize {
        match self {
            TapePolicy::FixedWrap(size) => size,
            TapePolicy::GrowOnDemand(initial) => initial,
        }
    }
}

/// The options an execution is configured with.
#[derive(Debug, Clone, Copy, PartialEq, Eq, Structural)]
pub struct ExecutionConfig {
    pub cell_width: CellSize,
    pub tape_policy: TapePolicy,
}

impl ExecutionConfig {
    pub open spec fn wf(self) -> bool {
        self.tape_policy.wf()
    }
}

impl Default for ExecutionConfig {
    /// 8-bit cells on a fixed wrapping tape of the default length.
    fn default() -> (c: Self)
        ensures
            c == (ExecutionConfig {
                cell_width: CellSize::Bits8,
                tape_policy: TapePolicy::FixedWrap(DEFAULT_TAPE_SIZE),
            }),
    {
        ExecutionConfig { cell_width: CellSize::Bits8, tape_policy: TapePolicy::FixedWrap(DEFAULT_TAPE_SIZE) }
    }
}

/// Why a source text was rejected. A rejected text yields no partial program.
#[derive(Debug, Clone, Copy, PartialEq, Eq, Structural)]
pub enum ParseError {
    /// A `]` appeared with no pending `[` to match it.
    UnmatchedCloseBracket,
    /// One or more `[` were never closed; `count` says how many.
    UnmatchedOpenBracket { count: usize },
}

} // verus!
