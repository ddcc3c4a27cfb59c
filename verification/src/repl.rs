//! The interactive session's state: a command history and the machine it
//! feeds.  The line reader itself lives outside the library; it compiles
//! each entered line, appends the bytecode to this machine's program and
//! resumes the run.

use vstd::prelude::*;

use crate::lexer::chars_vec;
use crate::vm::VM;
use crate::vm::initial_state;

verus! {

/// A hex byte string that could not be parsed.
#[derive(Debug, PartialEq, Eq, Structural, Clone, Copy)]
pub struct HexParseError;

/// The value of one hexadecimal digit, upper or lower case.
pub open spec fn hex_digit_val(c: char) -> Option<u8> {
    if 48 <= c as u32 && c as u32 <= 57 {
        Some((c as u32 - 48) as u8)
    } else if 97 <= c as u32 && c as u32 <= 102 {
        Some((c as u32 - 87) as u8)
    } else if 65 <= c as u32 && c as u32 <= 70 {
        Some((c as u32 - 55) as u8)
    } else {
        None
    }
}

/// The index of the first space at or after `i`, or the input length.
pub open spec fn space_end(s: Seq<char>, i: nat) -> nat
    decreases s.len() - i,
{
    if i >= s.len() {
        i
    } else if s[i as int] == ' ' {
        i
    } else {
        space_end(s, (i + 1) as nat)
    }
}

/// The value of the hex digits `s[i..j)`, if all of them are digits.
pub open spec fn hex_digits_val(s: Seq<char>, i: int, j: int) -> Option<int>
    decreases j - i,
{
    if i >= j {
        Some(0)
    } else {
        match (hex_digits_val(s, i, j - 1), hex_digit_val(s[j - 1])) {
            (Some(v), Some(d)) => Some(v * 16 + d),
            _ => None,
        }
    }
}

/// The value of the hex word `s[i..j)`: an optional leading `+`, then at
/// least one digit.
pub open spec fn hex_word_val(s: Seq<char>, i: int, j: int) -> Option<int> {
    let start = if i < j && s[i] == '+' {
        i + 1
    } else {
        i
    };
    if start >= j {
        None
    } else {
        hex_digits_val(s, start, j)
    }
}

/// The bytes of the space-separated hex words from `i` on; nothing when
/// any word is empty, has a stray character, or exceeds one byte.
pub open spec fn hex_rec(s: Seq<char>, i: nat) -> Option<Seq<u8>>
    decreases s.len() - i,
    via hex_rec_decreases
{
    let j = space_end(s, i);
    match hex_word_val(s, i as int, j as int) {
        None => None,
        Some(v) => if v > 255 {
            None
        } else if j < s.len() {
            match hex_rec(s, (j + 1) as nat) {
                Some(rest) => Some(seq![v as u8] + rest),
                None => None,
            }
        } else {
            Some(seq![v as u8])
        },
    }
}

#[via_fn]
proof fn hex_rec_decreases(s: Seq<char>, i: nat) {
    lemma_space_end_bounds(s, i);
}

/// The bytes a whole line of space-separated hex words stands for.
pub open spec fn spec_parse_hex(s: Seq<char>) -> Option<Seq<u8>> {
    hex_rec(s, 0)
}

proof fn lemma_space_end_bounds(s: Seq<char>, i: nat)
    ensures
        i <= space_end(s, i),
        i <= s.len() ==> space_end(s, i) <= s.len(),
    decreases s.len() - i,
{
    if i < s.len() && s[i as int] != ' ' {
        lemma_space_end_bounds(s, (i + 1) as nat);
    }
}

/// The session: the lines entered so far, and the machine they drive.
pub struct REPL {
    pub history: Vec<String>,
    pub vm: VM,
}

impl REPL {
    /// A fresh session: no history, a machine with no program.
    pub fn new() -> (r: REPL)
        ensures
            r.history@.len() == 0,
            r.vm@ == initial_state(Seq::<u8>::empty()),
    {
        REPL { history: Vec::new(), vm: VM::new() }
    }

    /// Parse a line of space-separated hexadecimal bytes, as entered to
    /// poke raw bytecode into the machine.
    pub fn parse_hex(&mut self, i: &str) -> (r: Result<Vec<u8>, HexParseError>)
        ensures
            match (r, spec_parse_hex(i@)) {
                (Ok(v), Some(bs)) => v@ == bs,
                (Err(_), None) => true,
                _ => false,
            },
    {
        let ghost s = i@;
        let chars = chars_vec(i);
        let mut results: Vec<u8> = Vec::new();
        let mut pos: usize = 0;
        loop
            invariant
                s == i@,
                chars@ == s,
                pos <= s.len(),
                spec_parse_hex(s) == match hex_rec(s, pos as nat) {
                    Some(rest) => Some(results@ + rest),
                    None => None::<Seq<u8>>,
                },
            decreases s.len() - pos,
        {
            let ghost j = space_end(s, pos as nat);
            proof {
                lemma_space_end_bounds(s, pos as nat);
            }
            let mut k = pos;
            let mut digits_start = pos;
            if k < chars.len() && chars[k] == '+' {
                proof {
                    assert(space_end(s, k as nat) == space_end(s, (k + 1) as nat));
                }
                k = k + 1;
                digits_start = k;
            }
            let mut val: u32 = 0;
            let mut ok = true;
            let mut over = false;
            while k < chars.len() && chars[k] != ' '
                invariant
                    chars@ == s,
                    pos <= digits_start <= k <= s.len(),
                    j == space_end(s, k as nat),
                    j == space_end(s, pos as nat),
                    ok == (hex_digits_val(s, digits_start as int, k as int) is Some),
                    ok ==> (over <==> hex_digits_val(s, digits_start as int, k as int).unwrap()
                        > 255),
                    ok && !over ==> hex_digits_val(s, digits_start as int, k as int).unwrap()
                        == val && val <= 255,
                decreases s.len() - k,
            {
                let c = chars[k];
                let u = c as u32;
                let d: Option<u32> = if 48 <= u && u <= 57 {
                    Some(u - 48)
                } else if 97 <= u && u <= 102 {
                    Some(u - 87)
                } else if 65 <= u && u <= 70 {
                    Some(u - 55)
                } else {
                    None
                };
                match d {
                    Some(d) => {
                        if ok && !over {
                            let next = val * 16 + d;
                            if next > 255 {
                                over = true;
                            } else {
                                val = next;
                            }
                            proof {
                                assert(hex_digits_val(s, digits_start as int, k + 1)
                                    == Some(hex_digits_val(s, digits_start as int, k as int).unwrap()
                                    * 16 + d));
                            }
                        } else if ok {
                            proof {
                                let v = hex_digits_val(s, digits_start as int, k as int).unwrap();
                                assert(hex_digits_val(s, digits_start as int, k + 1) == Some(
                                    v * 16 + d,
                                ));
                                assert(v * 16 + d > 255);
                            }
                        }
                    },
                    None => {
                        ok = false;
                    },
                }
                k = k + 1;
            }
            proof {
                assert(space_end(s, k as nat) == k as nat);
                assert(k as nat == j);
            }
            proof {
                assert(hex_word_val(s, pos as int, j as int) == (if digits_start < j {
                    hex_digits_val(s, digits_start as int, j as int)
                } else {
                    None::<int>
                }));
            }
            let word_ok = ok && digits_start < k && !over;
            if !word_ok {
                proof {
                    assert(match hex_word_val(s, pos as int, j as int) {
                        None => true,
                        Some(v) => v > 255,
                    });
                    assert(hex_rec(s, pos as nat) is None);
                }
                return Err(HexParseError);
            }
            let ghost before = results@;
            results.push(val as u8);
            if k < chars.len() {
                proof {
                    assert(hex_word_val(s, pos as int, j as int) == Some(val as int));
                    assert(hex_rec(s, pos as nat) == match hex_rec(s, (j + 1) as nat) {
                        Some(rest) => Some(seq![val as u8] + rest),
                        None => None::<Seq<u8>>,
                    });
                    match hex_rec(s, (j + 1) as nat) {
                        Some(rest) => {
                            assert(before + (seq![val as u8] + rest) =~= results@ + rest);
                        },
                        None => {},
                    }
                }
                pos = k + 1;
            } else {
                proof {
                    assert(hex_word_val(s, pos as int, j as int) == Some(val as int));
                    assert(hex_rec(s, pos as nat) == Some(seq![val as u8]));
                    assert(before + seq![val as u8] =~= results@);
                }
                return Ok(results);
            }
        }
    }
}

} // verus!
