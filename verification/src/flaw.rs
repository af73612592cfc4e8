//! What can be wrong with a runes message.

use vstd::prelude::*;
use vstd::string::StringExecFns;

verus! {

/// One thing that is wrong with a runes message.
#[derive(Copy, Clone, Debug, PartialEq, Eq, Structural, Hash)]
pub enum Flaw {
    /// An instruction after the protocol's opcode is no data push.
    Opcode,
    /// The pushed bytes are no sequence of encoded integers.
    Varint,
    /// An edict names an output beyond the count of outputs.
    EdictOutput,
    /// An edict's numbers lead to no rune identifier.
    EdictRuneId,
    /// The script cannot be read to its end.
    InvalidScript,
    /// The premine and the mints together leave 128 bits.
    SupplyOverflow,
    /// A tag stands without a value.
    TruncatedField,
    /// An even tag, or a bit of the flags, that is not known, was left over, or
    /// held a value that its field does not take.
    UnrecognisedEvenTag,
    /// The integers after the body tag are not a multiple of four.
    TrailingIntegers,
}

/// A set of flaws.
#[derive(Copy, Clone, Debug, PartialEq, Eq, Structural, Hash)]
pub struct Flaws {
    pub opcode: bool,
    pub varint: bool,
    pub edict_output: bool,
    pub edict_rune_id: bool,
    pub invalid_script: bool,
    pub supply_overflow: bool,
    pub truncated_field: bool,
    pub unrecognised_even_tag: bool,
    pub trailing_integers: bool,
}

impl Flaw {
    /// The flaw at place `rank`.
    pub open spec fn at(rank: nat) -> Flaw {
        if rank == 0 {
            Flaw::Opcode
        } else if rank == 1 {
            Flaw::Varint
        } else if rank == 2 {
            Flaw::EdictOutput
        } else if rank == 3 {
            Flaw::EdictRuneId
        } else if rank == 4 {
            Flaw::InvalidScript
        } else if rank == 5 {
            Flaw::SupplyOverflow
        } else if rank == 6 {
            Flaw::TruncatedField
        } else if rank == 7 {
            Flaw::UnrecognisedEvenTag
        } else {
            Flaw::TrailingIntegers
        }
    }

    /// The word under which the flaw is stored.
    pub open spec fn word(self) -> Seq<char> {
        match self {
            Flaw::Opcode => "opcode"@,
            Flaw::Varint => "varint"@,
            Flaw::EdictOutput => "edict_output"@,
            Flaw::EdictRuneId => "edict_rune_id"@,
            Flaw::InvalidScript => "invalid_script"@,
            Flaw::SupplyOverflow => "supply_overflow"@,
            Flaw::TruncatedField => "truncated_field"@,
            Flaw::UnrecognisedEvenTag => "unrecognised_even_tag"@,
            Flaw::TrailingIntegers => "trailing_integers"@,
        }
    }

    /// The word under which the flaw is stored.
    pub fn as_str(self) -> (r: &'static str)
        ensures
            r@ == self.word(),
    {
        match self {
            Flaw::Opcode => "opcode",
            Flaw::Varint => "varint",
            Flaw::EdictOutput => "edict_output",
            Flaw::EdictRuneId => "edict_rune_id",
            Flaw::InvalidScript => "invalid_script",
            Flaw::SupplyOverflow => "supply_overflow",
            Flaw::TruncatedField => "truncated_field",
            Flaw::UnrecognisedEvenTag => "unrecognised_even_tag",
            Flaw::TrailingIntegers => "trailing_integers",
        }
    }

    /// The word under which the flaw is stored, as an owned string.
    pub fn to_string(self) -> (r: String)
        ensures
            r@ == self.word(),
    {
        String::from_str(self.as_str())
    }
}

/// The words of the flaws of `flaws` at places `from` and later, in order,
/// each but the first of the whole list after a comma.
pub open spec fn joined_from(flaws: Flaws, from: nat, first: bool) -> Seq<char>
    decreases 9 - from,
{
    if from >= 9 {
        Seq::empty()
    } else if flaws.has(Flaw::at(from)) {
        (if first {
            Seq::<char>::empty()
        } else {
            ","@
        }) + Flaw::at(from).word() + joined_from(flaws, from + 1, false)
    } else {
        joined_from(flaws, from + 1, first)
    }
}

/// The flaws of `flaws` at places `from` and later, in order.
pub open spec fn listed_from(flaws: Flaws, from: nat) -> Seq<Flaw>
    decreases 9 - from,
{
    if from >= 9 {
        Seq::empty()
    } else if flaws.has(Flaw::at(from)) {
        seq![Flaw::at(from)] + listed_from(flaws, from + 1)
    } else {
        listed_from(flaws, from + 1)
    }
}

impl Flaws {
    /// Whether `flaw` is in the set.
    pub open spec fn has(self, flaw: Flaw) -> bool {
        match flaw {
            Flaw::Opcode => self.opcode,
            Flaw::Varint => self.varint,
            Flaw::EdictOutput => self.edict_output,
            Flaw::EdictRuneId => self.edict_rune_id,
            Flaw::InvalidScript => self.invalid_script,
            Flaw::SupplyOverflow => self.supply_overflow,
            Flaw::TruncatedField => self.truncated_field,
            Flaw::UnrecognisedEvenTag => self.unrecognised_even_tag,
            Flaw::TrailingIntegers => self.trailing_integers,
        }
    }

    /// The set without any flaw.
    pub open spec fn none() -> Flaws {
        Flaws {
            opcode: false,
            varint: false,
            edict_output: false,
            edict_rune_id: false,
            invalid_script: false,
            supply_overflow: false,
            truncated_field: false,
            unrecognised_even_tag: false,
            trailing_integers: false,
        }
    }

    /// Whether the set holds no flaw.
    pub open spec fn empty(self) -> bool {
        self == Flaws::none()
    }

    /// The set with `flaw` added.
    pub open spec fn with(self, flaw: Flaw) -> Flaws {
        match flaw {
            Flaw::Opcode => Flaws { opcode: true, ..self },
            Flaw::Varint => Flaws { varint: true, ..self },
            Flaw::EdictOutput => Flaws { edict_output: true, ..self },
            Flaw::EdictRuneId => Flaws { edict_rune_id: true, ..self },
            Flaw::InvalidScript => Flaws { invalid_script: true, ..self },
            Flaw::SupplyOverflow => Flaws { supply_overflow: true, ..self },
            Flaw::TruncatedField => Flaws { truncated_field: true, ..self },
            Flaw::UnrecognisedEvenTag => Flaws { unrecognised_even_tag: true, ..self },
            Flaw::TrailingIntegers => Flaws { trailing_integers: true, ..self },
        }
    }

    /// The flaws of the set, in order.
    pub open spec fn listed(self) -> Seq<Flaw> {
        listed_from(self, 0)
    }

    /// The words of the flaws of the set, in order, with commas between them.
    pub open spec fn joined(self) -> Seq<char> {
        joined_from(self, 0, true)
    }

    /// The set without any flaw.
    pub fn new() -> (r: Flaws)
        ensures
            r == Flaws::none(),
    {
        Flaws {
            opcode: false,
            varint: false,
            edict_output: false,
            edict_rune_id: false,
            invalid_script: false,
            supply_overflow: false,
            truncated_field: false,
            unrecognised_even_tag: false,
            trailing_integers: false,
        }
    }

    /// The set that holds `flaw` alone.
    pub fn of(flaw: Flaw) -> (r: Flaws)
        ensures
            r == Flaws::none().with(flaw),
            !r.empty(),
    {
        let mut flaws = Flaws::new();
        flaws.insert(flaw);
        flaws
    }

    /// Whether the set holds no flaw.
    pub fn is_empty(&self) -> (r: bool)
        ensures
            r == self.empty(),
    {
        !(self.opcode || self.varint || self.edict_output || self.edict_rune_id
            || self.invalid_script || self.supply_overflow || self.truncated_field
            || self.unrecognised_even_tag || self.trailing_integers)
    }

    /// Whether `flaw` is in the set.
    pub fn contains(&self, flaw: Flaw) -> (r: bool)
        ensures
            r == self.has(flaw),
    {
        match flaw {
            Flaw::Opcode => self.opcode,
            Flaw::Varint => self.varint,
            Flaw::EdictOutput => self.edict_output,
            Flaw::EdictRuneId => self.edict_rune_id,
            Flaw::InvalidScript => self.invalid_script,
            Flaw::SupplyOverflow => self.supply_overflow,
            Flaw::TruncatedField => self.truncated_field,
            Flaw::UnrecognisedEvenTag => self.unrecognised_even_tag,
            Flaw::TrailingIntegers => self.trailing_integers,
        }
    }

    /// Adds `flaw` to the set.
    pub fn insert(&mut self, flaw: Flaw)
        ensures
            *final(self) == old(self).with(flaw),
            !final(self).empty(),
    {
        match flaw {
            Flaw::Opcode => {
                self.opcode = true;
            },
            Flaw::Varint => {
                self.varint = true;
            },
            Flaw::EdictOutput => {
                self.edict_output = true;
            },
            Flaw::EdictRuneId => {
                self.edict_rune_id = true;
            },
            Flaw::InvalidScript => {
                self.invalid_script = true;
            },
            Flaw::SupplyOverflow => {
                self.supply_overflow = true;
            },
            Flaw::TruncatedField => {
                self.truncated_field = true;
            },
            Flaw::UnrecognisedEvenTag => {
                self.unrecognised_even_tag = true;
            },
            Flaw::TrailingIntegers => {
                self.trailing_integers = true;
            },
        }
    }

    /// The flaws of the set, in order.
    pub fn flaws(&self) -> (r: Vec<Flaw>)
        ensures
            r@ == self.listed(),
    {
        let all: [Flaw; 9] = [
            Flaw::Opcode,
            Flaw::Varint,
            Flaw::EdictOutput,
            Flaw::EdictRuneId,
            Flaw::InvalidScript,
            Flaw::SupplyOverflow,
            Flaw::TruncatedField,
            Flaw::UnrecognisedEvenTag,
            Flaw::TrailingIntegers,
        ];
        let mut out: Vec<Flaw> = Vec::new();
        let mut i: usize = 0;
        assert(out@ + listed_from(*self, 0) =~= self.listed());
        while i < 9
            invariant
                i <= 9,
                all@.len() == 9,
                forall|k: int| 0 <= k < 9 ==> all@[k] == Flaw::at(k as nat),
                out@ + listed_from(*self, i as nat) == self.listed(),
            decreases 9 - i,
        {
            let flaw: Flaw = all[i];
            if self.contains(flaw) {
                assert(out@.push(flaw) + listed_from(*self, (i + 1) as nat) =~= out@ + (seq![
                    flaw,
                ] + listed_from(*self, (i + 1) as nat)));
                out.push(flaw);
            }
            i = i + 1;
        }
        assert(out@ + listed_from(*self, 9) =~= out@);
        out
    }

    /// The words of the flaws of the set, in order, with commas between them.
    pub fn to_string(&self) -> (r: String)
        ensures
            r@ == self.joined(),
    {
        let all: [Flaw; 9] = [
            Flaw::Opcode,
            Flaw::Varint,
            Flaw::EdictOutput,
            Flaw::EdictRuneId,
            Flaw::InvalidScript,
            Flaw::SupplyOverflow,
            Flaw::TruncatedField,
            Flaw::UnrecognisedEvenTag,
            Flaw::TrailingIntegers,
        ];
        let mut out: String = String::new();
        let mut first: bool = true;
        let mut i: usize = 0;
        assert(out@ + joined_from(*self, 0, true) =~= self.joined());
        while i < 9
            invariant
                i <= 9,
                all@.len() == 9,
                forall|k: int| 0 <= k < 9 ==> all@[k] == Flaw::at(k as nat),
                out@ + joined_from(*self, i as nat, first) == self.joined(),
            decreases 9 - i,
        {
            let flaw: Flaw = all[i];
            if self.contains(flaw) {
                let ghost before = out@;
                let ghost rest = joined_from(*self, (i + 1) as nat, false);
                if !first {
                    out.append(",");
                }
                out.append(flaw.as_str());
                assert(out@ + rest =~= before + ((if first {
                    Seq::<char>::empty()
                } else {
                    ","@
                }) + flaw.word() + rest));
                first = false;
            }
            i = i + 1;
        }
        assert(out@ + joined_from(*self, 9, first) =~= out@);
        out
    }
}

} // verus!
