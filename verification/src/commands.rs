//! The encoding tables for compute-instruction fields.
//!
//! Three fixed mappings from mnemonic text to bit-field text: the compute
//! field (7 bits, with the a-bit folded in), the destination field (3 bits)
//! and the jump field (3 bits).  An unrecognized mnemonic has no entry.

use vstd::prelude::*;
use crate::text::{text_eq, text_of};

verus! {

/// The compute table: 28 mnemonics, each with its 7-bit field.
pub open spec fn comp_code(s: Seq<char>) -> Option<Seq<char>> {
    if s == "0"@ {
        Some("0101010"@)
    } else if s == "1"@ {
        Some("0111111"@)
    } else if s == "-1"@ {
        Some("0111010"@)
    } else if s == "D"@ {
        Some("0001100"@)
    } else if s == "A"@ {
        Some("0110000"@)
    } else if s == "M"@ {
        Some("1110000"@)
    } else if s == "!D"@ {
        Some("0001101"@)
    } else if s == "!A"@ {
        Some("0110001"@)
    } else if s == "!M"@ {
        Some("1110001"@)
    } else if s == "-D"@ {
        Some("0001111"@)
    } else if s == "-A"@ {
        Some("0110011"@)
    } else if s == "-M"@ {
        Some("1110011"@)
    } else if s == "D+1"@ {
        Some("0011111"@)
    } else if s == "A+1"@ {
        Some("0110111"@)
    } else if s == "M+1"@ {
        Some("1110111"@)
    } else if s == "D-1"@ {
        Some("0001110"@)
    } else if s == "A-1"@ {
        Some("0110010"@)
    } else if s == "M-1"@ {
        Some("1110010"@)
    } else if s == "D+A"@ {
        Some("0000010"@)
    } else if s == "D+M"@ {
        Some("1000010"@)
    } else if s == "D-A"@ {
        Some("0010011"@)
    } else if s == "D-M"@ {
        Some("1010011"@)
    } else if s == "A-D"@ {
        Some("0000111"@)
    } else if s == "M-D"@ {
        Some("1000111"@)
    } else if s == "D&A"@ {
        Some("0000000"@)
    } else if s == "D&M"@ {
        Some("1000000"@)
    } else if s == "D|A"@ {
        Some("0010101"@)
    } else if s == "D|M"@ {
        Some("1010101"@)
    } else {
        None
    }
}

/// The destination table: every subset of `{A, M, D}` in its canonical
/// spelling, the empty text standing for "no destination".
pub open spec fn dest_code(s: Seq<char>) -> Option<Seq<char>> {
    if s == ""@ {
        Some("000"@)
    } else if s == "M"@ {
        Some("001"@)
    } else if s == "D"@ {
        Some("010"@)
    } else if s == "MD"@ {
        Some("011"@)
    } else if s == "A"@ {
        Some("100"@)
    } else if s == "AM"@ {
        Some("101"@)
    } else if s == "AD"@ {
        Some("110"@)
    } else if s == "AMD"@ {
        Some("111"@)
    } else {
        None
    }
}

/// The jump table: the empty text and the seven conditional-jump mnemonics.
pub open spec fn jump_code(s: Seq<char>) -> Option<Seq<char>> {
    if s == ""@ {
        Some("000"@)
    } else if s == "JGT"@ {
        Some("001"@)
    } else if s == "JEQ"@ {
        Some("010"@)
    } else if s == "JGE"@ {
        Some("011"@)
    } else if s == "JLT"@ {
        Some("100"@)
    } else if s == "JNE"@ {
        Some("101"@)
    } else if s == "JLE"@ {
        Some("110"@)
    } else if s == "JMP"@ {
        Some("111"@)
    } else {
        None
    }
}

/// Every jump field the table yields is three bit characters.
pub proof fn lemma_jump_code_bits(s: Seq<char>)
    ensures
        jump_code(s) matches Some(c) ==> c.len() == 3 && crate::numeral::is_bits(c),
{
    reveal_strlit("000");
    reveal_strlit("001");
    reveal_strlit("010");
    reveal_strlit("011");
    reveal_strlit("100");
    reveal_strlit("101");
    reveal_strlit("110");
    reveal_strlit("111");
}

/// Every destination field the table yields is three bit characters.
pub proof fn lemma_dest_code_bits(s: Seq<char>)
    ensures
        dest_code(s) matches Some(c) ==> c.len() == 3 && crate::numeral::is_bits(c),
{
    reveal_strlit("000");
    reveal_strlit("001");
    reveal_strlit("010");
    reveal_strlit("011");
    reveal_strlit("100");
    reveal_strlit("101");
    reveal_strlit("110");
    reveal_strlit("111");
}

/// Every compute field the table yields is seven bit characters.
pub proof fn lemma_comp_code_bits(s: Seq<char>)
    ensures
        comp_code(s) matches Some(c) ==> c.len() == 7 && crate::numeral::is_bits(c),
{
    reveal_strlit("0101010");
    reveal_strlit("0111111");
    reveal_strlit("0111010");
    reveal_strlit("0001100");
    reveal_strlit("0110000");
    reveal_strlit("1110000");
    reveal_strlit("0001101");
    reveal_strlit("0110001");
    reveal_strlit("1110001");
    reveal_strlit("0001111");
    reveal_strlit("0110011");
    reveal_strlit("1110011");
    reveal_strlit("0011111");
    reveal_strlit("0110111");
    reveal_strlit("1110111");
    reveal_strlit("0001110");
    reveal_strlit("0110010");
    reveal_strlit("1110010");
    reveal_strlit("0000010");
    reveal_strlit("1000010");
    reveal_strlit("0010011");
    reveal_strlit("1010011");
    reveal_strlit("0000111");
    reveal_strlit("1000111");
    reveal_strlit("0000000");
    reveal_strlit("1000000");
    reveal_strlit("0010101");
    reveal_strlit("1010101");
}

/// The three static encoding tables.  The mappings themselves are fixed, so
/// the value carries no state; the lookup methods realize the tables.
pub struct CommandLookup {
}

impl CommandLookup {
    pub fn new() -> (l: CommandLookup) {
        CommandLookup {  }
    }

    /// The compute field's 7-bit code, or nothing for an unknown mnemonic.
    pub fn comp(&self, c: &Vec<char>) -> (r: Option<Vec<char>>)
        ensures
            match r {
                Some(v) => comp_code(c@) == Some(v@),
                None => comp_code(c@) is None,
            },
    {
        if text_eq(c, "0") {
            Some(text_of("0101010"))
        } else if text_eq(c, "1") {
            Some(text_of("0111111"))
        } else if text_eq(c, "-1") {
            Some(text_of("0111010"))
        } else if text_eq(c, "D") {
            Some(text_of("0001100"))
        } else if text_eq(c, "A") {
            Some(text_of("0110000"))
        } else if text_eq(c, "M") {
            Some(text_of("1110000"))
        } else if text_eq(c, "!D") {
            Some(text_of("0001101"))
        } else if text_eq(c, "!A") {
            Some(text_of("0110001"))
        } else if text_eq(c, "!M") {
            Some(text_of("1110001"))
        } else if text_eq(c, "-D") {
            Some(text_of("0001111"))
        } else if text_eq(c, "-A") {
            Some(text_of("0110011"))
        } else if text_eq(c, "-M") {
            Some(text_of("1110011"))
        } else if text_eq(c, "D+1") {
            Some(text_of("0011111"))
        } else if text_eq(c, "A+1") {
            Some(text_of("0110111"))
        } else if text_eq(c, "M+1") {
            Some(text_of("1110111"))
        } else if text_eq(c, "D-1") {
            Some(text_of("0001110"))
        } else if text_eq(c, "A-1") {
            Some(text_of("0110010"))
        } else if text_eq(c, "M-1") {
            Some(text_of("1110010"))
        } else if text_eq(c, "D+A") {
            Some(text_of("0000010"))
        } else if text_eq(c, "D+M") {
            Some(text_of("1000010"))
        } else if text_eq(c, "D-A") {
            Some(text_of("0010011"))
        } else if text_eq(c, "D-M") {
            Some(text_of("1010011"))
        } else if text_eq(c, "A-D") {
            Some(text_of("0000111"))
        } else if text_eq(c, "M-D") {
            Some(text_of("1000111"))
        } else if text_eq(c, "D&A") {
            Some(text_of("0000000"))
        } else if text_eq(c, "D&M") {
            Some(text_of("1000000"))
        } else if text_eq(c, "D|A") {
            Some(text_of("0010101"))
        } else if text_eq(c, "D|M") {
            Some(text_of("1010101"))
        } else {
            None
        }
    }

    /// The destination field's 3-bit code, or nothing for an unknown mnemonic.
    pub fn dest(&self, d: &Vec<char>) -> (r: Option<Vec<char>>)
        ensures
            match r {
                Some(v) => dest_code(d@) == Some(v@),
                None => dest_code(d@) is None,
            },
    {
        if text_eq(d, "") {
            Some(text_of("000"))
        } else if text_eq(d, "M") {
            Some(text_of("001"))
        } else if text_eq(d, "D") {
            Some(text_of("010"))
        } else if text_eq(d, "MD") {
            Some(text_of("011"))
        } else if text_eq(d, "A") {
            Some(text_of("100"))
        } else if text_eq(d, "AM") {
            Some(text_of("101"))
        } else if text_eq(d, "AD") {
            Some(text_of("110"))
        } else if text_eq(d, "AMD") {
            Some(text_of("111"))
        } else {
            None
        }
    }

    /// The jump field's 3-bit code, or nothing for an unknown mnemonic.
    pub fn jump(&self, j: &Vec<char>) -> (r: Option<Vec<char>>)
        ensures
            match r {
                Some(v) => jump_code(j@) == Some(v@),
                None => jump_code(j@) is None,
            },
    {
        if text_eq(j, "") {
            Some(text_of("000"))
        } else if text_eq(j, "JGT") {
            Some(text_of("001"))
        } else if text_eq(j, "JEQ") {
            Some(text_of("010"))
        } else if text_eq(j, "JGE") {
            Some(text_of("011"))
        } else if text_eq(j, "JLT") {
            Some(text_of("100"))
        } else if text_eq(j, "JNE") {
            Some(text_of("101"))
        } else if text_eq(j, "JLE") {
            Some(text_of("110"))
        } else if text_eq(j, "JMP") {
            Some(text_of("111"))
        } else {
            None
        }
    }
}

} // verus!
