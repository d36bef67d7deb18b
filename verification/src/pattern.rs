//! The pattern language: a pattern string such as `"%m/%z"` compiles to an
//! ordered sequence of tokens (literal bytes, date fields, the hash-split
//! marker), and a compiled pattern expands against a file's metadata to the
//! destination directory prefix.
//!
//! Grammar: `%` followed by a recognized letter is a directive (`%y` year,
//! `%m` month, `%d` day, `%z` hash split), `%%` is a literal percent sign,
//! anything else is literal text. An unknown directive, a lone trailing `%`,
//! or a second `%z` is rejected with the offending byte and its position.
use vstd::prelude::*;
use crate::codec::{padded_dec_of, append_dec_padded, append_bytes};

verus! {

/// Which modification-time field a date directive renders.
#[derive(Clone, Copy, PartialEq, Eq, Structural, Debug)]
pub enum DateKind {
    Year,
    Month,
    Day,
}

/// One element of a compiled pattern. Literal text is held byte by byte.
#[derive(Clone, Copy, PartialEq, Eq, Structural, Debug)]
pub enum PatternToken {
    Literal(u8),
    DateField(DateKind),
    HashSplit,
}

/// A rejected pattern: the unrecognized (or repeated) directive byte and its
/// position in the pattern text.
#[derive(Clone, Copy, PartialEq, Eq, Structural, Debug)]
pub enum PatternError {
    InvalidPattern { position: usize, directive: u8 },
}

/// How many hash-split markers a token sequence holds.
pub open spec fn count_hash(toks: Seq<PatternToken>) -> nat
    decreases toks.len(),
{
    if toks.len() == 0 {
        0
    } else {
        (if toks[0] is HashSplit {
            1nat
        } else {
            0nat
        }) + count_hash(toks.drop_first())
    }
}

proof fn lemma_count_hash_push(s: Seq<PatternToken>, t: PatternToken)
    ensures
        count_hash(s.push(t)) == count_hash(s) + (if t is HashSplit {
            1nat
        } else {
            0nat
        }),
    decreases s.len(),
{
    if s.len() == 0 {
        assert(s.push(t)[0] == t);
        assert(s.push(t).drop_first() =~= Seq::<PatternToken>::empty());
        assert(count_hash(Seq::<PatternToken>::empty()) == 0);
        assert(count_hash(s) == 0);
        assert(count_hash(s.push(t)) == (if t is HashSplit {
            1nat
        } else {
            0nat
        }) + count_hash(s.push(t).drop_first()));
    } else {
        assert(s.push(t)[0] == s[0]);
        assert(s.push(t).drop_first() =~= s.drop_first().push(t));
        lemma_count_hash_push(s.drop_first(), t);
        assert(count_hash(s.push(t)) == (if s[0] is HashSplit {
            1nat
        } else {
            0nat
        }) + count_hash(s.drop_first().push(t)));
        assert(count_hash(s) == (if s[0] is HashSplit {
            1nat
        } else {
            0nat
        }) + count_hash(s.drop_first()));
    }
}

/// A compiled pattern: the token sequence plus whether it contains the
/// hash-split marker.
#[derive(Debug)]
pub struct Pattern {
    pub tokens: Vec<PatternToken>,
    pub has_hash: bool,
}

impl View for Pattern {
    type V = Seq<PatternToken>;

    open spec fn view(&self) -> Seq<PatternToken> {
        self.tokens@
    }
}

impl Pattern {
    /// At most one hash-split marker, and `has_hash` records whether there
    /// is one.
    pub open spec fn wf(self) -> bool {
        count_hash(self.tokens@) <= 1 && (self.has_hash <==> count_hash(self.tokens@) >= 1)
    }

    /// Whether the pattern contains the hash-split marker, so that content
    /// needs to be read and digested at all.
    pub fn needs_hash(&self) -> (b: bool)
        requires
            self.wf(),
        ensures
            b == (count_hash(self@) >= 1),
    {
        self.has_hash
    }
}

/// The meaning of compilation, one pass from position `i`: either the token
/// sequence for the rest of the text or the first error. `seen_hash` records
/// whether a hash-split marker stands earlier in the text.
pub open spec fn spec_compile_from(s: Seq<u8>, i: int, seen_hash: bool) -> Result<
    Seq<PatternToken>,
    PatternError,
>
    decreases s.len() - i,
{
    if i >= s.len() {
        Ok(Seq::empty())
    } else if s[i] == 37 {
        if i + 1 >= s.len() {
            Err(PatternError::InvalidPattern { position: i as usize, directive: 37 })
        } else {
            let c = s[i + 1];
            if c == 37 {
                match spec_compile_from(s, i + 2, seen_hash) {
                    Ok(r) => Ok(seq![PatternToken::Literal(37)] + r),
                    Err(e) => Err(e),
                }
            } else if c == 121 {
                match spec_compile_from(s, i + 2, seen_hash) {
                    Ok(r) => Ok(seq![PatternToken::DateField(DateKind::Year)] + r),
                    Err(e) => Err(e),
                }
            } else if c == 109 {
                match spec_compile_from(s, i + 2, seen_hash) {
                    Ok(r) => Ok(seq![PatternToken::DateField(DateKind::Month)] + r),
                    Err(e) => Err(e),
                }
            } else if c == 100 {
                match spec_compile_from(s, i + 2, seen_hash) {
                    Ok(r) => Ok(seq![PatternToken::DateField(DateKind::Day)] + r),
                    Err(e) => Err(e),
                }
            } else if c == 122 {
                if seen_hash {
                    Err(PatternError::InvalidPattern { position: (i + 1) as usize, directive: 122 })
                } else {
                    match spec_compile_from(s, i + 2, true) {
                        Ok(r) => Ok(seq![PatternToken::HashSplit] + r),
                        Err(e) => Err(e),
                    }
                }
            } else {
                Err(PatternError::InvalidPattern { position: (i + 1) as usize, directive: c })
            }
        }
    } else {
        match spec_compile_from(s, i + 1, seen_hash) {
            Ok(r) => Ok(seq![PatternToken::Literal(s[i])] + r),
            Err(e) => Err(e),
        }
    }
}

/// The meaning of compiling a whole pattern text.
pub open spec fn spec_compile(s: Seq<u8>) -> Result<Seq<PatternToken>, PatternError> {
    spec_compile_from(s, 0, false)
}

/// Compiles a pattern text to its token sequence, or reports the first
/// offending directive and its position.
pub fn compile(src: &Vec<u8>) -> (r: Result<Pattern, PatternError>)
    ensures
        match r {
            Ok(p) => p.wf() && spec_compile(src@) == Ok::<Seq<PatternToken>, PatternError>(p@),
            Err(e) => spec_compile(src@) == Err::<Seq<PatternToken>, PatternError>(e),
        },
{
    let n = src.len();
    let mut toks: Vec<PatternToken> = Vec::new();
    let mut seen: bool = false;
    let mut i: usize = 0;
    while i < n
        invariant
            i <= n,
            n == src@.len(),
            seen <==> count_hash(toks@) >= 1,
            count_hash(toks@) <= 1,
            spec_compile(src@) == (match spec_compile_from(src@, i as int, seen) {
                Ok(rest) => Ok::<Seq<PatternToken>, PatternError>(toks@ + rest),
                Err(e) => Err::<Seq<PatternToken>, PatternError>(e),
            }),
        decreases n - i,
    {
        let b = src[i];
        if b == 37 {
            if i + 1 >= n {
                return Err(PatternError::InvalidPattern { position: i, directive: 37 });
            }
            let c = src[i + 1];
            let tok: PatternToken = if c == 37 {
                PatternToken::Literal(37)
            } else if c == 121 {
                PatternToken::DateField(DateKind::Year)
            } else if c == 109 {
                PatternToken::DateField(DateKind::Month)
            } else if c == 100 {
                PatternToken::DateField(DateKind::Day)
            } else if c == 122 {
                if seen {
                    return Err(
                        PatternError::InvalidPattern { position: i + 1, directive: 122 },
                    );
                }
                PatternToken::HashSplit
            } else {
                return Err(PatternError::InvalidPattern { position: i + 1, directive: c });
            };
            proof {
                lemma_count_hash_push(toks@, tok);
                let rest = spec_compile_from(src@, i as int + 2, seen || (tok is HashSplit));
                if rest is Ok {
                    assert(toks@ + (seq![tok] + rest->Ok_0) =~= toks@.push(tok) + rest->Ok_0);
                }
            }
            if c == 122 {
                seen = true;
            }
            toks.push(tok);
            i = i + 2;
        } else {
            proof {
                lemma_count_hash_push(toks@, PatternToken::Literal(b));
                let rest = spec_compile_from(src@, i as int + 1, seen);
                if rest is Ok {
                    assert(toks@ + (seq![PatternToken::Literal(b)] + rest->Ok_0) =~= toks@.push(
                        PatternToken::Literal(b),
                    ) + rest->Ok_0);
                }
            }
            toks.push(PatternToken::Literal(b));
            i = i + 1;
        }
    }
    proof {
        assert(toks@ + Seq::<PatternToken>::empty() =~= toks@);
    }
    Ok(Pattern { tokens: toks, has_hash: seen })
}

/// The text one token contributes to an expanded prefix: the literal byte, a
/// four-digit year, a two-digit month or day, or the hash-split segment.
pub open spec fn spec_token_text(
    t: PatternToken,
    year: u64,
    month: u64,
    day: u64,
    hash_seg: Seq<u8>,
) -> Seq<u8> {
    match t {
        PatternToken::Literal(b) => seq![b],
        PatternToken::DateField(DateKind::Year) => padded_dec_of(year as nat, 4),
        PatternToken::DateField(DateKind::Month) => padded_dec_of(month as nat, 2),
        PatternToken::DateField(DateKind::Day) => padded_dec_of(day as nat, 2),
        PatternToken::HashSplit => hash_seg,
    }
}

/// Expansion of a token sequence: the concatenation of each token's text.
pub open spec fn spec_expand(
    toks: Seq<PatternToken>,
    year: u64,
    month: u64,
    day: u64,
    hash_seg: Seq<u8>,
) -> Seq<u8>
    decreases toks.len(),
{
    if toks.len() == 0 {
        Seq::empty()
    } else {
        spec_token_text(toks[0], year, month, day, hash_seg) + spec_expand(
            toks.drop_first(),
            year,
            month,
            day,
            hash_seg,
        )
    }
}

/// Expands a compiled pattern against a file's date fields and hash-split
/// segment, yielding the destination directory prefix.
pub fn expand(p: &Pattern, year: u64, month: u64, day: u64, hash_seg: &Vec<u8>) -> (r: Vec<u8>)
    ensures
        r@ == spec_expand(p@, year, month, day, hash_seg@),
{
    let mut out: Vec<u8> = Vec::new();
    let mut i: usize = 0;
    proof {
        assert(p@.skip(0) =~= p@);
    }
    while i < p.tokens.len()
        invariant
            i <= p@.len(),
            spec_expand(p@, year, month, day, hash_seg@) == out@ + spec_expand(
                p@.skip(i as int),
                year,
                month,
                day,
                hash_seg@,
            ),
        decreases p@.len() - i,
    {
        proof {
            let s = p@.skip(i as int);
            assert(s[0] == p@[i as int]);
            assert(s.drop_first() =~= p@.skip(i as int + 1));
        }
        let ghost text = spec_token_text(p@[i as int], year, month, day, hash_seg@);
        let ghost out0 = out@;
        match p.tokens[i] {
            PatternToken::Literal(b) => {
                out.push(b);
            },
            PatternToken::DateField(DateKind::Year) => {
                append_dec_padded(year, 4, &mut out);
            },
            PatternToken::DateField(DateKind::Month) => {
                append_dec_padded(month, 2, &mut out);
            },
            PatternToken::DateField(DateKind::Day) => {
                append_dec_padded(day, 2, &mut out);
            },
            PatternToken::HashSplit => {
                append_bytes(&mut out, hash_seg);
            },
        }
        proof {
            let rest = spec_expand(p@.skip(i as int + 1), year, month, day, hash_seg@);
            assert(spec_expand(p@.skip(i as int), year, month, day, hash_seg@) == text + rest);
            assert(out@ =~= out0 + text);
            assert(out0 + (text + rest) =~= out@ + rest);
        }
        i = i + 1;
    }
    proof {
        assert(spec_expand(p@.skip(p@.len() as int), year, month, day, hash_seg@) == Seq::<
            u8,
        >::empty());
        assert(out@ + Seq::<u8>::empty() =~= out@);
    }
    out
}

} // verus!
