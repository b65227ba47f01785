//! The fixed words of the protocol: command names, sub-commands and
//! options, compared without regard to ASCII case.
use vstd::prelude::*;

verus! {

/// `b` with an ASCII capital turned into its small letter.
pub open spec fn to_lower(b: u8) -> u8 {
    if 65 <= b <= 90 {
        (b + 32) as u8
    } else {
        b
    }
}

/// `b` with an ASCII small letter turned into its capital.
pub open spec fn to_upper(b: u8) -> u8 {
    if 97 <= b <= 122 {
        (b - 32) as u8
    } else {
        b
    }
}

/// `s` in ASCII capitals.
pub open spec fn upper(s: Seq<u8>) -> Seq<u8> {
    s.map_values(|b: u8| to_upper(b))
}

/// Whether `s` spells the lower-case word `lit`, in any ASCII case.
pub open spec fn is_name(s: Seq<u8>, lit: Seq<u8>) -> bool {
    s.len() == lit.len() && forall|i: int| 0 <= i < s.len() ==> to_lower(#[trigger] s[i]) == lit[i]
}

/// The fixed words the protocol uses.
#[derive(Debug, Clone, Copy, PartialEq, Eq, Structural)]
pub enum Word {
    Ping,
    Echo,
    Get,
    SetKey,
    Keys,
    Info,
    Config,
    ReplConf,
    PSync,
    Wait,
    Save,
    Px,
    GetAck,
    Ack,
    Dir,
    DbFilename,
    ListeningPort,
    Capa,
    Psync2,
}

/// The lower-case spelling of `w`.
pub open spec fn word(w: Word) -> Seq<u8> {
    match w {
        Word::Ping => seq![112u8, 105, 110, 103],
        Word::Echo => seq![101u8, 99, 104, 111],
        Word::Get => seq![103u8, 101, 116],
        Word::SetKey => seq![115u8, 101, 116],
        Word::Keys => seq![107u8, 101, 121, 115],
        Word::Info => seq![105u8, 110, 102, 111],
        Word::Config => seq![99u8, 111, 110, 102, 105, 103],
        Word::ReplConf => seq![114u8, 101, 112, 108, 99, 111, 110, 102],
        Word::PSync => seq![112u8, 115, 121, 110, 99],
        Word::Wait => seq![119u8, 97, 105, 116],
        Word::Save => seq![115u8, 97, 118, 101],
        Word::Px => seq![112u8, 120],
        Word::GetAck => seq![103u8, 101, 116, 97, 99, 107],
        Word::Ack => seq![97u8, 99, 107],
        Word::Dir => seq![100u8, 105, 114],
        Word::DbFilename => seq![100u8, 98, 102, 105, 108, 101, 110, 97, 109, 101],
        Word::ListeningPort => seq![108u8, 105, 115, 116, 101, 110, 105, 110, 103, 45, 112, 111, 114, 116],
        Word::Capa => seq![99u8, 97, 112, 97],
        Word::Psync2 => seq![112u8, 115, 121, 110, 99, 50],
    }
}

/// The lower-case spelling of `w`.
pub fn word_bytes(w: Word) -> (r: Vec<u8>)
    ensures
        r@ == word(w),
{
    match w {
        Word::Ping => vec![112u8, 105, 110, 103],
        Word::Echo => vec![101u8, 99, 104, 111],
        Word::Get => vec![103u8, 101, 116],
        Word::SetKey => vec![115u8, 101, 116],
        Word::Keys => vec![107u8, 101, 121, 115],
        Word::Info => vec![105u8, 110, 102, 111],
        Word::Config => vec![99u8, 111, 110, 102, 105, 103],
        Word::ReplConf => vec![114u8, 101, 112, 108, 99, 111, 110, 102],
        Word::PSync => vec![112u8, 115, 121, 110, 99],
        Word::Wait => vec![119u8, 97, 105, 116],
        Word::Save => vec![115u8, 97, 118, 101],
        Word::Px => vec![112u8, 120],
        Word::GetAck => vec![103u8, 101, 116, 97, 99, 107],
        Word::Ack => vec![97u8, 99, 107],
        Word::Dir => vec![100u8, 105, 114],
        Word::DbFilename => vec![100u8, 98, 102, 105, 108, 101, 110, 97, 109, 101],
        Word::ListeningPort => vec![108u8, 105, 115, 116, 101, 110, 105, 110, 103, 45, 112, 111, 114, 116],
        Word::Capa => vec![99u8, 97, 112, 97],
        Word::Psync2 => vec![112u8, 115, 121, 110, 99, 50],
    }
}

/// The spelling of `w` in capitals, as commands are sent.
pub fn word_upper(w: Word) -> (r: Vec<u8>)
    ensures
        r@ == upper(word(w)),
{
    let lower = word_bytes(w);
    let mut out: Vec<u8> = Vec::new();
    let mut i: usize = 0;
    while i < lower.len()
        invariant
            i <= lower.len(),
            lower@ == word(w),
            out@ == upper(lower@.subrange(0, i as int)),
        decreases lower.len() - i,
    {
        let b = lower[i];
        let c: u8 = if 97 <= b && b <= 122 {
            b - 32
        } else {
            b
        };
        out.push(c);
        i = i + 1;
        assert(out@ =~= upper(lower@.subrange(0, i as int)));
    }
    assert(lower@.subrange(0, lower.len() as int) == lower@);
    out
}

/// Whether `s` spells `w`, in any ASCII case.
pub fn is_word(s: &[u8], w: Word) -> (r: bool)
    ensures
        r == is_name(s@, word(w)),
{
    let lit = word_bytes(w);
    if s.len() != lit.len() {
        return false;
    }
    let mut i: usize = 0;
    while i < s.len()
        invariant
            i <= s.len() == lit.len(),
            lit@ == word(w),
            forall|j: int| 0 <= j < i ==> to_lower(#[trigger] s@[j]) == lit@[j],
        decreases s.len() - i,
    {
        let b = s[i];
        let c: u8 = if 65 <= b && b <= 90 {
            b + 32
        } else {
            b
        };
        if c != lit[i] {
            return false;
        }
        i = i + 1;
    }
    true
}

/// Every word, sent in capitals, is recognised as itself.
pub proof fn lemma_upper_is_name(w: Word)
    ensures
        is_name(upper(word(w)), word(w)),
{
    let l = word(w);
    assert forall|i: int| 0 <= i < l.len() implies to_lower(#[trigger] upper(l)[i]) == l[i] by {
        assert(!(65 <= l[i] <= 90));
    }
}

} // verus!
