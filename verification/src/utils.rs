//! Quote-aware text scanning helpers used by the command layer.

use vstd::prelude::*;

verus! {

// ---------------------------------------------------------------------------
// CSV value validity
// ---------------------------------------------------------------------------
/// The scanner state while checking CSV validity: whether a double-quoted
/// region is open, and the previously significant character.
pub struct CsvScan {
    pub on_quote: bool,
    pub previous: char,
}

/// One step of the CSV validity scan.  A doubled double-quote is a literal
/// quote; an undoubled one toggles the quoted region (the next character is
/// needed to tell the two apart); a comma is only allowed inside a quoted
/// region.  `None` means the text is already invalid.
pub open spec fn spec_csv_step(st: CsvScan, ch: char, next: Option<char>) -> Option<CsvScan> {
    if ch == '"' {
        if st.previous == '"' {
            Some(CsvScan { previous: ' ', ..st })
        } else if next == Some('"') {
            Some(CsvScan { previous: ch, ..st })
        } else {
            Some(CsvScan { on_quote: !st.on_quote, previous: ch })
        }
    } else if ch == ',' {
        if !st.on_quote {
            None
        } else {
            Some(st)
        }
    } else {
        Some(CsvScan { previous: ch, ..st })
    }
}

/// Whether the rest of a text is CSV-valid from a scanner state: every
/// step must succeed and the quoted region must be closed at the end.
pub open spec fn spec_csv_valid_from(s: Seq<char>, st: CsvScan) -> bool
    decreases s.len(),
{
    if s.len() == 0 {
        !st.on_quote
    } else {
        match spec_csv_step(
            st,
            s[0],
            if s.len() > 1 {
                Some(s[1])
            } else {
                None
            },
        ) {
            Some(st2) => spec_csv_valid_from(s.skip(1), st2),
            None => false,
        }
    }
}

/// Whether a text is a valid CSV cell: unquoted commas are forbidden and
/// double-quoted regions must be closed.
pub open spec fn spec_is_valid_csv(s: Seq<char>) -> bool {
    spec_csv_valid_from(s, CsvScan { on_quote: false, previous: ' ' })
}

/// Check that a text is a valid CSV cell, exactly as [`spec_is_valid_csv`]
/// says.
pub fn is_valid_csv(value: &str) -> (r: bool)
    ensures
        r == spec_is_valid_csv(value@),
{
    let v = crate::text::str_to_chars(value);
    let mut on_quote = false;
    let mut previous = ' ';
    let mut i: usize = 0;
    proof {
        assert(value@.skip(0) =~= value@);
    }
    while i < v.len()
        invariant
            i <= v@.len(),
            v@ == value@,
            spec_is_valid_csv(value@) == spec_csv_valid_from(
                value@.skip(i as int),
                CsvScan { on_quote, previous },
            ),
        decreases v@.len() - i,
    {
        let ch = v[i];
        let ghost rest = value@.skip(i as int);
        proof {
            assert(rest[0] == ch);
            assert(rest.len() > 1 ==> rest[1] == value@[i + 1]);
            assert(rest.skip(1) =~= value@.skip(i as int + 1));
        }
        match ch {
            '"' => {
                if previous == '"' {
                    previous = ' ';
                } else {
                    let next_is_quote = i + 1 < v.len() && v[i + 1] == '"';
                    if !next_is_quote {
                        on_quote = !on_quote;
                    }
                    previous = ch;
                }
            },
            ',' => {
                if !on_quote {
                    return false;
                }
            },
            _ => {
                previous = ch;
            },
        }
        i = i + 1;
    }
    proof {
        assert(value@.skip(v@.len() as int) =~= Seq::<char>::empty());
    }
    !on_quote
}

// ---------------------------------------------------------------------------
// Quote-aware tokenization
// ---------------------------------------------------------------------------
/// The tokenizer state: finished tokens, the token being built, whether a
/// quoted region is open, and the previously significant character.
pub struct TokState {
    pub tokens: Seq<Seq<char>>,
    pub chunk: Seq<char>,
    pub on_quote: bool,
    pub previous: char,
}

/// The tokenizer's starting state.
pub open spec fn spec_tok_init() -> TokState {
    TokState { tokens: Seq::empty(), chunk: Seq::empty(), on_quote: false, previous: ' ' }
}

/// One tokenizer step.  Backslashes and single quotes toggle the quoted
/// region unless escaped by a preceding backslash, in which case they are
/// kept literally; an unquoted space flushes the current token (runs of
/// spaces flush once); everything else extends the current token.
pub open spec fn spec_tok_step(st: TokState, ch: char) -> TokState {
    if ch == '\\' {
        if st.previous == '\\' {
            TokState { chunk: st.chunk.push(ch), previous: ' ', ..st }
        } else {
            TokState { on_quote: !st.on_quote, previous: ch, ..st }
        }
    } else if ch == '\'' {
        if st.previous == '\\' {
            TokState { chunk: st.chunk.push(ch), previous: ' ', ..st }
        } else {
            TokState { on_quote: !st.on_quote, previous: ch, ..st }
        }
    } else if ch == ' ' && !st.on_quote {
        if st.previous == ' ' {
            st
        } else {
            TokState {
                tokens: st.tokens.push(st.chunk),
                chunk: Seq::empty(),
                previous: ch,
                ..st
            }
        }
    } else {
        TokState { chunk: st.chunk.push(ch), previous: ch, ..st }
    }
}

/// The tokenizer state after scanning a whole text.
pub open spec fn spec_tok_run(s: Seq<char>) -> TokState
    decreases s.len(),
{
    if s.len() == 0 {
        spec_tok_init()
    } else {
        spec_tok_step(spec_tok_run(s.drop_last()), s.last())
    }
}

/// The quote-aware tokens of a text: the scanned tokens, plus the last
/// token if it is nonempty.
pub open spec fn spec_tokens_with_quote(s: Seq<char>) -> Seq<Seq<char>> {
    let st = spec_tok_run(s);
    if st.chunk.len() > 0 {
        st.tokens.push(st.chunk)
    } else {
        st.tokens
    }
}

/// Split a text into quote-aware tokens, exactly as
/// [`spec_tokens_with_quote`] says.
pub fn tokens_with_quote(source: &str) -> (r: Vec<String>)
    ensures
        r.deep_view() == spec_tokens_with_quote(source@),
{
    let v = crate::text::str_to_chars(source);
    let mut tokens: Vec<String> = Vec::new();
    let mut chunk: Vec<char> = Vec::new();
    let mut on_quote = false;
    let mut previous = ' ';
    let mut i: usize = 0;
    proof {
        assert(source@.take(0) =~= Seq::<char>::empty());
        assert(tokens.deep_view() =~= spec_tok_run(source@.take(0)).tokens);
        assert(chunk@ =~= spec_tok_run(source@.take(0)).chunk);
    }
    while i < v.len()
        invariant
            i <= v@.len(),
            v@ == source@,
            tokens.deep_view() == spec_tok_run(source@.take(i as int)).tokens,
            chunk@ == spec_tok_run(source@.take(i as int)).chunk,
            on_quote == spec_tok_run(source@.take(i as int)).on_quote,
            previous == spec_tok_run(source@.take(i as int)).previous,
        decreases v@.len() - i,
    {
        let ch = v[i];
        proof {
            let pre = source@.take(i as int);
            assert(source@.take(i as int + 1).drop_last() =~= pre);
            assert(source@.take(i as int + 1).last() == ch);
        }
        if ch == '\\' {
            if previous == '\\' {
                chunk.push(ch);
                previous = ' ';
            } else {
                on_quote = !on_quote;
                previous = ch;
            }
        } else if ch == '\'' {
            if previous == '\\' {
                chunk.push(ch);
                previous = ' ';
            } else {
                on_quote = !on_quote;
                previous = ch;
            }
        } else if ch == ' ' && !on_quote {
            if previous != ' ' {
                let flushed = crate::text::chars_to_string(&chunk);
                tokens.push(flushed);
                chunk = Vec::new();
                previous = ch;
                proof {
                    assert(tokens.deep_view() =~= spec_tok_run(
                        source@.take(i as int + 1),
                    ).tokens);
                }
            }
        } else {
            chunk.push(ch);
            previous = ch;
        }
        i = i + 1;
    }
    proof {
        assert(source@.take(v@.len() as int) =~= source@);
    }
    if chunk.len() != 0 {
        let last = crate::text::chars_to_string(&chunk);
        tokens.push(last);
        proof {
            assert(tokens.deep_view() =~= spec_tokens_with_quote(source@));
        }
    }
    tokens
}

} // verus!
