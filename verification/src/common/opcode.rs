//! The opcodes of an instruction word, by their tag.

use vstd::prelude::*;
use vstd::std_specs::convert::FromSpecImpl;

verus! {

/// What an instruction does. The tag is the opcode's position in this list;
/// `Invalid` stands for every tag that names no opcode.
#[derive(PartialEq, Eq, Structural, Clone, Copy, Debug)]
pub enum Opcode {
    Move,
    LoadI,
    LoadF,
    LoadK,
    LoadKX,
    LoadFalse,
    LFalseSkip,
    LoadTrue,
    LoadNil,
    GetUpval,
    SetUpval,
    GetTabUp,
    GetTable,
    GetI,
    GetField,
    SetTabUp,
    SetTable,
    SetI,
    SetField,
    NewTable,
    Method,
    AddI,
    AddK,
    SubK,
    MulK,
    ModK,
    PowK,
    DivK,
    IDivK,
    BandK,
    BorK,
    BxorK,
    ShrI,
    ShlI,
    Add,
    Sub,
    Mul,
    Mod,
    Pow,
    Div,
    IDiv,
    Band,
    Bor,
    Bxor,
    Shl,
    Shr,
    MmBin,
    MmBinI,
    MmBinK,
    Unm,
    Bnot,
    Not,
    Len,
    Concat,
    Close,
    Tbc,
    Jmp,
    Eq,
    Lt,
    Le,
    EqK,
    EqI,
    LtI,
    LeI,
    GtI,
    GeI,
    Test,
    TestSet,
    Call,
    TailCall,
    Return,
    Return0,
    Return1,
    ForLoop,
    ForPrep,
    TForPrep,
    TForCall,
    TForLoop,
    SetList,
    Closure,
    Vararg,
    VarargPrep,
    ExtraArg,
    Invalid,
}

impl Opcode {
    /// The tag that stands for this opcode in an instruction word.
    pub open spec fn tag(self) -> u8 {
        match self {
            Opcode::Move => 0u8,
            Opcode::LoadI => 1u8,
            Opcode::LoadF => 2u8,
            Opcode::LoadK => 3u8,
            Opcode::LoadKX => 4u8,
            Opcode::LoadFalse => 5u8,
            Opcode::LFalseSkip => 6u8,
            Opcode::LoadTrue => 7u8,
            Opcode::LoadNil => 8u8,
            Opcode::GetUpval => 9u8,
            Opcode::SetUpval => 10u8,
            Opcode::GetTabUp => 11u8,
            Opcode::GetTable => 12u8,
            Opcode::GetI => 13u8,
            Opcode::GetField => 14u8,
            Opcode::SetTabUp => 15u8,
            Opcode::SetTable => 16u8,
            Opcode::SetI => 17u8,
            Opcode::SetField => 18u8,
            Opcode::NewTable => 19u8,
            Opcode::Method => 20u8,
            Opcode::AddI => 21u8,
            Opcode::AddK => 22u8,
            Opcode::SubK => 23u8,
            Opcode::MulK => 24u8,
            Opcode::ModK => 25u8,
            Opcode::PowK => 26u8,
            Opcode::DivK => 27u8,
            Opcode::IDivK => 28u8,
            Opcode::BandK => 29u8,
            Opcode::BorK => 30u8,
            Opcode::BxorK => 31u8,
            Opcode::ShrI => 32u8,
            Opcode::ShlI => 33u8,
            Opcode::Add => 34u8,
            Opcode::Sub => 35u8,
            Opcode::Mul => 36u8,
            Opcode::Mod => 37u8,
            Opcode::Pow => 38u8,
            Opcode::Div => 39u8,
            Opcode::IDiv => 40u8,
            Opcode::Band => 41u8,
            Opcode::Bor => 42u8,
            Opcode::Bxor => 43u8,
            Opcode::Shl => 44u8,
            Opcode::Shr => 45u8,
            Opcode::MmBin => 46u8,
            Opcode::MmBinI => 47u8,
            Opcode::MmBinK => 48u8,
            Opcode::Unm => 49u8,
            Opcode::Bnot => 50u8,
            Opcode::Not => 51u8,
            Opcode::Len => 52u8,
            Opcode::Concat => 53u8,
            Opcode::Close => 54u8,
            Opcode::Tbc => 55u8,
            Opcode::Jmp => 56u8,
            Opcode::Eq => 57u8,
            Opcode::Lt => 58u8,
            Opcode::Le => 59u8,
            Opcode::EqK => 60u8,
            Opcode::EqI => 61u8,
            Opcode::LtI => 62u8,
            Opcode::LeI => 63u8,
            Opcode::GtI => 64u8,
            Opcode::GeI => 65u8,
            Opcode::Test => 66u8,
            Opcode::TestSet => 67u8,
            Opcode::Call => 68u8,
            Opcode::TailCall => 69u8,
            Opcode::Return => 70u8,
            Opcode::Return0 => 71u8,
            Opcode::Return1 => 72u8,
            Opcode::ForLoop => 73u8,
            Opcode::ForPrep => 74u8,
            Opcode::TForPrep => 75u8,
            Opcode::TForCall => 76u8,
            Opcode::TForLoop => 77u8,
            Opcode::SetList => 78u8,
            Opcode::Closure => 79u8,
            Opcode::Vararg => 80u8,
            Opcode::VarargPrep => 81u8,
            Opcode::ExtraArg => 82u8,
            Opcode::Invalid => 83u8,
        }
    }

    /// The opcode that a tag names.
    pub open spec fn of_tag(tag: u8) -> Opcode {
        if tag == 0u8 {
            Opcode::Move
        } else if tag == 1u8 {
            Opcode::LoadI
        } else if tag == 2u8 {
            Opcode::LoadF
        } else if tag == 3u8 {
            Opcode::LoadK
        } else if tag == 4u8 {
            Opcode::LoadKX
        } else if tag == 5u8 {
            Opcode::LoadFalse
        } else if tag == 6u8 {
            Opcode::LFalseSkip
        } else if tag == 7u8 {
            Opcode::LoadTrue
        } else if tag == 8u8 {
            Opcode::LoadNil
        } else if tag == 9u8 {
            Opcode::GetUpval
        } else if tag == 10u8 {
            Opcode::SetUpval
        } else if tag == 11u8 {
            Opcode::GetTabUp
        } else if tag == 12u8 {
            Opcode::GetTable
        } else if tag == 13u8 {
            Opcode::GetI
        } else if tag == 14u8 {
            Opcode::GetField
        } else if tag == 15u8 {
            Opcode::SetTabUp
        } else if tag == 16u8 {
            Opcode::SetTable
        } else if tag == 17u8 {
            Opcode::SetI
        } else if tag == 18u8 {
            Opcode::SetField
        } else if tag == 19u8 {
            Opcode::NewTable
        } else if tag == 20u8 {
            Opcode::Method
        } else if tag == 21u8 {
            Opcode::AddI
        } else if tag == 22u8 {
            Opcode::AddK
        } else if tag == 23u8 {
            Opcode::SubK
        } else if tag == 24u8 {
            Opcode::MulK
        } else if tag == 25u8 {
            Opcode::ModK
        } else if tag == 26u8 {
            Opcode::PowK
        } else if tag == 27u8 {
            Opcode::DivK
        } else if tag == 28u8 {
            Opcode::IDivK
        } else if tag == 29u8 {
            Opcode::BandK
        } else if tag == 30u8 {
            Opcode::BorK
        } else if tag == 31u8 {
            Opcode::BxorK
        } else if tag == 32u8 {
            Opcode::ShrI
        } else if tag == 33u8 {
            Opcode::ShlI
        } else if tag == 34u8 {
            Opcode::Add
        } else if tag == 35u8 {
            Opcode::Sub
        } else if tag == 36u8 {
            Opcode::Mul
        } else if tag == 37u8 {
            Opcode::Mod
        } else if tag == 38u8 {
            Opcode::Pow
        } else if tag == 39u8 {
            Opcode::Div
        } else if tag == 40u8 {
            Opcode::IDiv
        } else if tag == 41u8 {
            Opcode::Band
        } else if tag == 42u8 {
            Opcode::Bor
        } else if tag == 43u8 {
            Opcode::Bxor
        } else if tag == 44u8 {
            Opcode::Shl
        } else if tag == 45u8 {
            Opcode::Shr
        } else if tag == 46u8 {
            Opcode::MmBin
        } else if tag == 47u8 {
            Opcode::MmBinI
        } else if tag == 48u8 {
            Opcode::MmBinK
        } else if tag == 49u8 {
            Opcode::Unm
        } else if tag == 50u8 {
            Opcode::Bnot
        } else if tag == 51u8 {
            Opcode::Not
        } else if tag == 52u8 {
            Opcode::Len
        } else if tag == 53u8 {
            Opcode::Concat
        } else if tag == 54u8 {
            Opcode::Close
        } else if tag == 55u8 {
            Opcode::Tbc
        } else if tag == 56u8 {
            Opcode::Jmp
        } else if tag == 57u8 {
            Opcode::Eq
        } else if tag == 58u8 {
            Opcode::Lt
        } else if tag == 59u8 {
            Opcode::Le
        } else if tag == 60u8 {
            Opcode::EqK
        } else if tag == 61u8 {
            Opcode::EqI
        } else if tag == 62u8 {
            Opcode::LtI
        } else if tag == 63u8 {
            Opcode::LeI
        } else if tag == 64u8 {
            Opcode::GtI
        } else if tag == 65u8 {
            Opcode::GeI
        } else if tag == 66u8 {
            Opcode::Test
        } else if tag == 67u8 {
            Opcode::TestSet
        } else if tag == 68u8 {
            Opcode::Call
        } else if tag == 69u8 {
            Opcode::TailCall
        } else if tag == 70u8 {
            Opcode::Return
        } else if tag == 71u8 {
            Opcode::Return0
        } else if tag == 72u8 {
            Opcode::Return1
        } else if tag == 73u8 {
            Opcode::ForLoop
        } else if tag == 74u8 {
            Opcode::ForPrep
        } else if tag == 75u8 {
            Opcode::TForPrep
        } else if tag == 76u8 {
            Opcode::TForCall
        } else if tag == 77u8 {
            Opcode::TForLoop
        } else if tag == 78u8 {
            Opcode::SetList
        } else if tag == 79u8 {
            Opcode::Closure
        } else if tag == 80u8 {
            Opcode::Vararg
        } else if tag == 81u8 {
            Opcode::VarargPrep
        } else if tag == 82u8 {
            Opcode::ExtraArg
        } else {
            Opcode::Invalid
        }
    }

    /// The opcode's name, as it is written in generated code.
    pub open spec fn spec_name(self) -> Seq<char> {
        match self {
            Opcode::Move => "Move"@,
            Opcode::LoadI => "LoadI"@,
            Opcode::LoadF => "LoadF"@,
            Opcode::LoadK => "LoadK"@,
            Opcode::LoadKX => "LoadKX"@,
            Opcode::LoadFalse => "LoadFalse"@,
            Opcode::LFalseSkip => "LFalseSkip"@,
            Opcode::LoadTrue => "LoadTrue"@,
            Opcode::LoadNil => "LoadNil"@,
            Opcode::GetUpval => "GetUpval"@,
            Opcode::SetUpval => "SetUpval"@,
            Opcode::GetTabUp => "GetTabUp"@,
            Opcode::GetTable => "GetTable"@,
            Opcode::GetI => "GetI"@,
            Opcode::GetField => "GetField"@,
            Opcode::SetTabUp => "SetTabUp"@,
            Opcode::SetTable => "SetTable"@,
            Opcode::SetI => "SetI"@,
            Opcode::SetField => "SetField"@,
            Opcode::NewTable => "NewTable"@,
            Opcode::Method => "Method"@,
            Opcode::AddI => "AddI"@,
            Opcode::AddK => "AddK"@,
            Opcode::SubK => "SubK"@,
            Opcode::MulK => "MulK"@,
            Opcode::ModK => "ModK"@,
            Opcode::PowK => "PowK"@,
            Opcode::DivK => "DivK"@,
            Opcode::IDivK => "IDivK"@,
            Opcode::BandK => "BandK"@,
            Opcode::BorK => "BorK"@,
            Opcode::BxorK => "BxorK"@,
            Opcode::ShrI => "ShrI"@,
            Opcode::ShlI => "ShlI"@,
            Opcode::Add => "Add"@,
            Opcode::Sub => "Sub"@,
            Opcode::Mul => "Mul"@,
            Opcode::Mod => "Mod"@,
            Opcode::Pow => "Pow"@,
            Opcode::Div => "Div"@,
            Opcode::IDiv => "IDiv"@,
            Opcode::Band => "Band"@,
            Opcode::Bor => "Bor"@,
            Opcode::Bxor => "Bxor"@,
            Opcode::Shl => "Shl"@,
            Opcode::Shr => "Shr"@,
            Opcode::MmBin => "MmBin"@,
            Opcode::MmBinI => "MmBinI"@,
            Opcode::MmBinK => "MmBinK"@,
            Opcode::Unm => "Unm"@,
            Opcode::Bnot => "Bnot"@,
            Opcode::Not => "Not"@,
            Opcode::Len => "Len"@,
            Opcode::Concat => "Concat"@,
            Opcode::Close => "Close"@,
            Opcode::Tbc => "Tbc"@,
            Opcode::Jmp => "Jmp"@,
            Opcode::Eq => "Eq"@,
            Opcode::Lt => "Lt"@,
            Opcode::Le => "Le"@,
            Opcode::EqK => "EqK"@,
            Opcode::EqI => "EqI"@,
            Opcode::LtI => "LtI"@,
            Opcode::LeI => "LeI"@,
            Opcode::GtI => "GtI"@,
            Opcode::GeI => "GeI"@,
            Opcode::Test => "Test"@,
            Opcode::TestSet => "TestSet"@,
            Opcode::Call => "Call"@,
            Opcode::TailCall => "TailCall"@,
            Opcode::Return => "Return"@,
            Opcode::Return0 => "Return0"@,
            Opcode::Return1 => "Return1"@,
            Opcode::ForLoop => "ForLoop"@,
            Opcode::ForPrep => "ForPrep"@,
            Opcode::TForPrep => "TForPrep"@,
            Opcode::TForCall => "TForCall"@,
            Opcode::TForLoop => "TForLoop"@,
            Opcode::SetList => "SetList"@,
            Opcode::Closure => "Closure"@,
            Opcode::Vararg => "Vararg"@,
            Opcode::VarargPrep => "VarargPrep"@,
            Opcode::ExtraArg => "ExtraArg"@,
            Opcode::Invalid => "Invalid"@,
        }
    }

    pub fn name(self) -> (s: &'static str)
        ensures
            s@ == self.spec_name(),
    {
        match self {
            Opcode::Move => "Move",
            Opcode::LoadI => "LoadI",
            Opcode::LoadF => "LoadF",
            Opcode::LoadK => "LoadK",
            Opcode::LoadKX => "LoadKX",
            Opcode::LoadFalse => "LoadFalse",
            Opcode::LFalseSkip => "LFalseSkip",
            Opcode::LoadTrue => "LoadTrue",
            Opcode::LoadNil => "LoadNil",
            Opcode::GetUpval => "GetUpval",
            Opcode::SetUpval => "SetUpval",
            Opcode::GetTabUp => "GetTabUp",
            Opcode::GetTable => "GetTable",
            Opcode::GetI => "GetI",
            Opcode::GetField => "GetField",
            Opcode::SetTabUp => "SetTabUp",
            Opcode::SetTable => "SetTable",
            Opcode::SetI => "SetI",
            Opcode::SetField => "SetField",
            Opcode::NewTable => "NewTable",
            Opcode::Method => "Method",
            Opcode::AddI => "AddI",
            Opcode::AddK => "AddK",
            Opcode::SubK => "SubK",
            Opcode::MulK => "MulK",
            Opcode::ModK => "ModK",
            Opcode::PowK => "PowK",
            Opcode::DivK => "DivK",
            Opcode::IDivK => "IDivK",
            Opcode::BandK => "BandK",
            Opcode::BorK => "BorK",
            Opcode::BxorK => "BxorK",
            Opcode::ShrI => "ShrI",
            Opcode::ShlI => "ShlI",
            Opcode::Add => "Add",
            Opcode::Sub => "Sub",
            Opcode::Mul => "Mul",
            Opcode::Mod => "Mod",
            Opcode::Pow => "Pow",
            Opcode::Div => "Div",
            Opcode::IDiv => "IDiv",
            Opcode::Band => "Band",
            Opcode::Bor => "Bor",
            Opcode::Bxor => "Bxor",
            Opcode::Shl => "Shl",
            Opcode::Shr => "Shr",
            Opcode::MmBin => "MmBin",
            Opcode::MmBinI => "MmBinI",
            Opcode::MmBinK => "MmBinK",
            Opcode::Unm => "Unm",
            Opcode::Bnot => "Bnot",
            Opcode::Not => "Not",
            Opcode::Len => "Len",
            Opcode::Concat => "Concat",
            Opcode::Close => "Close",
            Opcode::Tbc => "Tbc",
            Opcode::Jmp => "Jmp",
            Opcode::Eq => "Eq",
            Opcode::Lt => "Lt",
            Opcode::Le => "Le",
            Opcode::EqK => "EqK",
            Opcode::EqI => "EqI",
            Opcode::LtI => "LtI",
            Opcode::LeI => "LeI",
            Opcode::GtI => "GtI",
            Opcode::GeI => "GeI",
            Opcode::Test => "Test",
            Opcode::TestSet => "TestSet",
            Opcode::Call => "Call",
            Opcode::TailCall => "TailCall",
            Opcode::Return => "Return",
            Opcode::Return0 => "Return0",
            Opcode::Return1 => "Return1",
            Opcode::ForLoop => "ForLoop",
            Opcode::ForPrep => "ForPrep",
            Opcode::TForPrep => "TForPrep",
            Opcode::TForCall => "TForCall",
            Opcode::TForLoop => "TForLoop",
            Opcode::SetList => "SetList",
            Opcode::Closure => "Closure",
            Opcode::Vararg => "Vararg",
            Opcode::VarargPrep => "VarargPrep",
            Opcode::ExtraArg => "ExtraArg",
            Opcode::Invalid => "Invalid",
        }
    }

    /// Every opcode is the one that its own tag names, and no tag is above 83.
    pub proof fn lemma_tag_of_tag(self)
        ensures
            Opcode::of_tag(self.tag()) == self,
            self.tag() <= 83,
    {
    }
}

impl From<u8> for Opcode {
    fn from(tag: u8) -> (op: Opcode) {
        match tag {
            0u8 => Opcode::Move,
            1u8 => Opcode::LoadI,
            2u8 => Opcode::LoadF,
            3u8 => Opcode::LoadK,
            4u8 => Opcode::LoadKX,
            5u8 => Opcode::LoadFalse,
            6u8 => Opcode::LFalseSkip,
            7u8 => Opcode::LoadTrue,
            8u8 => Opcode::LoadNil,
            9u8 => Opcode::GetUpval,
            10u8 => Opcode::SetUpval,
            11u8 => Opcode::GetTabUp,
            12u8 => Opcode::GetTable,
            13u8 => Opcode::GetI,
            14u8 => Opcode::GetField,
            15u8 => Opcode::SetTabUp,
            16u8 => Opcode::SetTable,
            17u8 => Opcode::SetI,
            18u8 => Opcode::SetField,
            19u8 => Opcode::NewTable,
            20u8 => Opcode::Method,
            21u8 => Opcode::AddI,
            22u8 => Opcode::AddK,
            23u8 => Opcode::SubK,
            24u8 => Opcode::MulK,
            25u8 => Opcode::ModK,
            26u8 => Opcode::PowK,
            27u8 => Opcode::DivK,
            28u8 => Opcode::IDivK,
            29u8 => Opcode::BandK,
            30u8 => Opcode::BorK,
            31u8 => Opcode::BxorK,
            32u8 => Opcode::ShrI,
            33u8 => Opcode::ShlI,
            34u8 => Opcode::Add,
            35u8 => Opcode::Sub,
            36u8 => Opcode::Mul,
            37u8 => Opcode::Mod,
            38u8 => Opcode::Pow,
            39u8 => Opcode::Div,
            40u8 => Opcode::IDiv,
            41u8 => Opcode::Band,
            42u8 => Opcode::Bor,
            43u8 => Opcode::Bxor,
            44u8 => Opcode::Shl,
            45u8 => Opcode::Shr,
            46u8 => Opcode::MmBin,
            47u8 => Opcode::MmBinI,
            48u8 => Opcode::MmBinK,
            49u8 => Opcode::Unm,
            50u8 => Opcode::Bnot,
            51u8 => Opcode::Not,
            52u8 => Opcode::Len,
            53u8 => Opcode::Concat,
            54u8 => Opcode::Close,
            55u8 => Opcode::Tbc,
            56u8 => Opcode::Jmp,
            57u8 => Opcode::Eq,
            58u8 => Opcode::Lt,
            59u8 => Opcode::Le,
            60u8 => Opcode::EqK,
            61u8 => Opcode::EqI,
            62u8 => Opcode::LtI,
            63u8 => Opcode::LeI,
            64u8 => Opcode::GtI,
            65u8 => Opcode::GeI,
            66u8 => Opcode::Test,
            67u8 => Opcode::TestSet,
            68u8 => Opcode::Call,
            69u8 => Opcode::TailCall,
            70u8 => Opcode::Return,
            71u8 => Opcode::Return0,
            72u8 => Opcode::Return1,
            73u8 => Opcode::ForLoop,
            74u8 => Opcode::ForPrep,
            75u8 => Opcode::TForPrep,
            76u8 => Opcode::TForCall,
            77u8 => Opcode::TForLoop,
            78u8 => Opcode::SetList,
            79u8 => Opcode::Closure,
            80u8 => Opcode::Vararg,
            81u8 => Opcode::VarargPrep,
            82u8 => Opcode::ExtraArg,
            _ => Opcode::Invalid,
        }
    }
}

impl FromSpecImpl<u8> for Opcode {
    open spec fn obeys_from_spec() -> bool {
        true
    }

    open spec fn from_spec(tag: u8) -> Opcode {
        Opcode::of_tag(tag)
    }
}

impl From<Opcode> for u8 {
    fn from(op: Opcode) -> (tag: u8) {
        match op {
            Opcode::Move => 0u8,
            Opcode::LoadI => 1u8,
            Opcode::LoadF => 2u8,
            Opcode::LoadK => 3u8,
            Opcode::LoadKX => 4u8,
            Opcode::LoadFalse => 5u8,
            Opcode::LFalseSkip => 6u8,
            Opcode::LoadTrue => 7u8,
            Opcode::LoadNil => 8u8,
            Opcode::GetUpval => 9u8,
            Opcode::SetUpval => 10u8,
            Opcode::GetTabUp => 11u8,
            Opcode::GetTable => 12u8,
            Opcode::GetI => 13u8,
            Opcode::GetField => 14u8,
            Opcode::SetTabUp => 15u8,
            Opcode::SetTable => 16u8,
            Opcode::SetI => 17u8,
            Opcode::SetField => 18u8,
            Opcode::NewTable => 19u8,
            Opcode::Method => 20u8,
            Opcode::AddI => 21u8,
            Opcode::AddK => 22u8,
            Opcode::SubK => 23u8,
            Opcode::MulK => 24u8,
            Opcode::ModK => 25u8,
            Opcode::PowK => 26u8,
            Opcode::DivK => 27u8,
            Opcode::IDivK => 28u8,
            Opcode::BandK => 29u8,
            Opcode::BorK => 30u8,
            Opcode::BxorK => 31u8,
            Opcode::ShrI => 32u8,
            Opcode::ShlI => 33u8,
            Opcode::Add => 34u8,
            Opcode::Sub => 35u8,
            Opcode::Mul => 36u8,
            Opcode::Mod => 37u8,
            Opcode::Pow => 38u8,
            Opcode::Div => 39u8,
            Opcode::IDiv => 40u8,
            Opcode::Band => 41u8,
            Opcode::Bor => 42u8,
            Opcode::Bxor => 43u8,
            Opcode::Shl => 44u8,
            Opcode::Shr => 45u8,
            Opcode::MmBin => 46u8,
            Opcode::MmBinI => 47u8,
            Opcode::MmBinK => 48u8,
            Opcode::Unm => 49u8,
            Opcode::Bnot => 50u8,
            Opcode::Not => 51u8,
            Opcode::Len => 52u8,
            Opcode::Concat => 53u8,
            Opcode::Close => 54u8,
            Opcode::Tbc => 55u8,
            Opcode::Jmp => 56u8,
            Opcode::Eq => 57u8,
            Opcode::Lt => 58u8,
            Opcode::Le => 59u8,
            Opcode::EqK => 60u8,
            Opcode::EqI => 61u8,
            Opcode::LtI => 62u8,
            Opcode::LeI => 63u8,
            Opcode::GtI => 64u8,
            Opcode::GeI => 65u8,
            Opcode::Test => 66u8,
            Opcode::TestSet => 67u8,
            Opcode::Call => 68u8,
            Opcode::TailCall => 69u8,
            Opcode::Return => 70u8,
            Opcode::Return0 => 71u8,
            Opcode::Return1 => 72u8,
            Opcode::ForLoop => 73u8,
            Opcode::ForPrep => 74u8,
            Opcode::TForPrep => 75u8,
            Opcode::TForCall => 76u8,
            Opcode::TForLoop => 77u8,
            Opcode::SetList => 78u8,
            Opcode::Closure => 79u8,
            Opcode::Vararg => 80u8,
            Opcode::VarargPrep => 81u8,
            Opcode::ExtraArg => 82u8,
            Opcode::Invalid => 83u8,
        }
    }
}

impl FromSpecImpl<Opcode> for u8 {
    open spec fn obeys_from_spec() -> bool {
        true
    }

    open spec fn from_spec(op: Opcode) -> u8 {
        op.tag()
    }
}

} // verus!
