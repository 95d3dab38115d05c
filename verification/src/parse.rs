//! The invocation argument parser: turns command-line words into flags.

use vstd::prelude::*;

use crate::text::trim_seq;

verus! {

/// The kinds of invocation flag.
#[derive(Clone, Copy, PartialEq, Eq, Structural, Debug)]
pub enum FlagType {
    Argument,
    Command,
    Confirm,
    Help,
    Schema,
    Version,
    NoFlag,
}

/// One recognised invocation flag, possibly waiting for an option word.
#[derive(Debug)]
pub struct Flag {
    pub ftype: FlagType,
    pub need_option: bool,
    pub option: String,
    pub early_exit: bool,
}

/// The mathematical content of a [`Flag`].
#[verifier::ext_equal]
pub struct FlagModel {
    pub ftype: FlagType,
    pub need_option: bool,
    pub option: Seq<char>,
    pub early_exit: bool,
}

impl View for Flag {
    type V = FlagModel;

    open spec fn view(&self) -> FlagModel {
        FlagModel {
            ftype: self.ftype,
            need_option: self.need_option,
            option: self.option@,
            early_exit: self.early_exit,
        }
    }
}

impl DeepView for Flag {
    type V = FlagModel;

    open spec fn deep_view(&self) -> FlagModel {
        self@
    }
}

/// The flag an unrecognised word produces: nothing.
pub open spec fn spec_flag_empty() -> FlagModel {
    FlagModel { ftype: FlagType::NoFlag, need_option: false, option: Seq::empty(), early_exit: false }
}

/// A plain argument word, carried as its own option.
pub open spec fn spec_flag_argument(w: Seq<char>) -> FlagModel {
    FlagModel { ftype: FlagType::Argument, need_option: true, option: w, early_exit: false }
}

/// The schema flag, waiting for a file option.
pub open spec fn spec_flag_schema() -> FlagModel {
    FlagModel { ftype: FlagType::Schema, need_option: true, option: Seq::empty(), early_exit: false }
}

/// The command flag, waiting for a command option.
pub open spec fn spec_flag_command() -> FlagModel {
    FlagModel { ftype: FlagType::Command, need_option: true, option: Seq::empty(), early_exit: false }
}

/// The confirm flag.
pub open spec fn spec_flag_confirm() -> FlagModel {
    FlagModel { ftype: FlagType::Confirm, need_option: false, option: Seq::empty(), early_exit: false }
}

/// The version flag; it ends processing.
pub open spec fn spec_flag_version() -> FlagModel {
    FlagModel { ftype: FlagType::Version, need_option: false, option: Seq::empty(), early_exit: true }
}

/// The help flag; it ends processing.
pub open spec fn spec_flag_help() -> FlagModel {
    FlagModel { ftype: FlagType::Help, need_option: false, option: Seq::empty(), early_exit: true }
}

/// The flag a (trimmed) word names.
pub open spec fn spec_match_word(w: Seq<char>) -> FlagModel {
    let t = trim_seq(w);
    if t == "--version"@ || t == "-v"@ {
        spec_flag_version()
    } else if t == "--help"@ || t == "-h"@ {
        spec_flag_help()
    } else if t == "--command"@ || t == "-c"@ {
        spec_flag_command()
    } else if t == "--schema"@ || t == "-s"@ {
        spec_flag_schema()
    } else if t == "--confirm"@ || t == "-C"@ {
        spec_flag_confirm()
    } else {
        spec_flag_empty()
    }
}

/// The parser's running state: the flags gathered so far, whether the next
/// word is the option of the last flag, and whether an early-exit flag
/// ended processing.
#[verifier::ext_equal]
pub struct ParseState {
    pub flags: Seq<FlagModel>,
    pub accept: bool,
    pub stop: bool,
}

/// The parser's starting state.
pub open spec fn spec_parse_init() -> ParseState {
    ParseState { flags: Seq::empty(), accept: false, stop: false }
}

/// One parser step.  A word that is not a flag becomes an argument; a word
/// following a flag that needs an option becomes that flag's option; a
/// recognised early-exit flag replaces everything gathered and ends
/// processing; other recognised flags are appended.
pub open spec fn spec_parse_word(st: ParseState, w: Seq<char>) -> ParseState {
    if st.stop {
        st
    } else if !st.accept && !(w.len() > 0 && w[0] == '-') {
        ParseState { flags: st.flags.push(spec_flag_argument(w)), ..st }
    } else if st.accept {
        ParseState {
            flags: st.flags.update(
                st.flags.len() - 1,
                (FlagModel { option: w, ..st.flags.last() }),
            ),
            accept: false,
            ..st
        }
    } else {
        let f = spec_match_word(w);
        if f.early_exit {
            ParseState { flags: seq![f], accept: st.accept, stop: true }
        } else {
            ParseState {
                flags: if f.ftype != FlagType::NoFlag {
                    st.flags.push(f)
                } else {
                    st.flags
                },
                accept: f.need_option,
                ..st
            }
        }
    }
}

/// The parser state after reading a whole word sequence.
pub open spec fn spec_parse_run(words: Seq<Seq<char>>) -> ParseState
    decreases words.len(),
{
    if words.len() == 0 {
        spec_parse_init()
    } else {
        spec_parse_word(spec_parse_run(words.drop_last()), words.last())
    }
}

/// Invocation argument parser.
pub struct Parser {
    pub flags: Vec<Flag>,
    pub accept_flag_option: bool,
}

impl Parser {
    /// A parser with nothing gathered.
    pub fn new() -> (r: Parser)
        ensures
            r.flags.deep_view() =~= Seq::<FlagModel>::empty(),
            r.accept_flag_option == false,
    {
        Parser { flags: Vec::new(), accept_flag_option: false }
    }

    /// Reset the parser to its starting state.
    pub fn clear(&mut self)
        ensures
            final(self).flags.deep_view() =~= Seq::<FlagModel>::empty(),
            final(self).accept_flag_option == false,
    {
        *self = Parser::new();
    }

    /// Parse invocation words into flags, exactly as [`spec_parse_run`]
    /// says, and leave the parser reset.
    pub fn parse_from_vec(&mut self, source: &Vec<String>) -> (r: Vec<Flag>)
        requires
            old(self).flags@.len() == 0,
            old(self).accept_flag_option == false,
        ensures
            r.deep_view() == spec_parse_run(source.deep_view()).flags,
            final(self).flags@.len() == 0,
            final(self).accept_flag_option == false,
    {
        let ghost words = source.deep_view();
        let mut i: usize = 0;
        proof {
            assert(words.take(0) =~= Seq::<Seq<char>>::empty());
            assert(self.flags.deep_view() =~= spec_parse_run(words.take(0)).flags);
        }
        let mut stopped = false;
        while i < source.len()
            invariant
                i <= source@.len(),
                source.deep_view() == words,
                source@.len() == words.len(),
                self.flags.deep_view() == spec_parse_run(words.take(i as int)).flags,
                self.accept_flag_option == spec_parse_run(words.take(i as int)).accept,
                stopped == spec_parse_run(words.take(i as int)).stop,
                self.accept_flag_option ==> self.flags@.len() > 0,
            decreases source@.len() - i,
        {
            proof {
                assert(words.take(i as int + 1).drop_last() =~= words.take(i as int));
                assert(words.take(i as int + 1).last() == words[i as int]);
                assert(source.deep_view()[i as int] == source@[i as int]@);
            }
            if !stopped {
                let should_break = self.find_word_variant(source[i].as_str());
                if should_break {
                    stopped = true;
                }
            }
            i = i + 1;
        }
        proof {
            assert(words.take(words.len() as int) =~= words);
        }
        let mut out: Vec<Flag> = Vec::new();
        core::mem::swap(&mut out, &mut self.flags);
        self.accept_flag_option = false;
        out
    }

    /// Process one word, returning whether processing should end.
    fn find_word_variant(&mut self, word: &str) -> (r: bool)
        requires
            old(self).accept_flag_option ==> old(self).flags@.len() > 0,
        ensures
            ({
                let st0 = ParseState {
                    flags: old(self).flags.deep_view(),
                    accept: old(self).accept_flag_option,
                    stop: false,
                };
                let st1 = spec_parse_word(st0, word@);
                final(self).flags.deep_view() == st1.flags && final(self).accept_flag_option
                    == st1.accept && r == st1.stop
            }),
            final(self).accept_flag_option ==> final(self).flags@.len() > 0,
    {
        let dash = word.unicode_len() > 0 && word.get_char(0) == '-';
        if !self.accept_flag_option && !dash {
            self.flags.push(Flag::argument(word));
            proof {
                assert(final(self).flags.deep_view() =~= old(self).flags.deep_view().push(
                    spec_flag_argument(word@),
                ));
            }
            return false;
        }
        if self.accept_flag_option {
            let last = self.flags.len() - 1;
            let ftype = self.flags[last].ftype;
            let need_option = self.flags[last].need_option;
            let early_exit = self.flags[last].early_exit;
            self.flags[last] = Flag { ftype, need_option, option: word.to_owned(), early_exit };
            self.accept_flag_option = false;
            proof {
                assert(old(self).flags.deep_view().last() == old(self).flags@[last as int]@);
                assert(final(self).flags.deep_view() =~= old(self).flags.deep_view().update(
                    last as int,
                    (FlagModel { option: word@, ..old(self).flags.deep_view().last() }),
                ));
            }
            return false;
        }
        let flag = Self::match_word(word);
        if flag.early_exit {
            let mut replacement: Vec<Flag> = Vec::new();
            replacement.push(flag);
            self.flags = replacement;
            proof {
                assert(final(self).flags.deep_view() =~= seq![spec_match_word(word@)]);
            }
            return true;
        }
        if flag.need_option {
            self.accept_flag_option = true;
        }
        let keep = match flag.ftype {
            FlagType::NoFlag => false,
            _ => true,
        };
        if keep {
            self.flags.push(flag);
            proof {
                assert(final(self).flags.deep_view() =~= old(self).flags.deep_view().push(
                    spec_match_word(word@),
                ));
            }
        } else {
            proof {
                assert(spec_match_word(word@).need_option == false);
            }
        }
        false
    }

    /// The flag a word names, ignoring surrounding whitespace.
    fn match_word(word: &str) -> (r: Flag)
        ensures
            r@ == spec_match_word(word@),
    {
        let t = crate::text::trim_chars(&crate::text::str_to_chars(word));
        if crate::text::chars_eq_str(&t, "--version") || crate::text::chars_eq_str(&t, "-v") {
            Flag::version()
        } else if crate::text::chars_eq_str(&t, "--help") || crate::text::chars_eq_str(&t, "-h") {
            Flag::help()
        } else if crate::text::chars_eq_str(&t, "--command") || crate::text::chars_eq_str(
            &t,
            "-c",
        ) {
            Flag::command()
        } else if crate::text::chars_eq_str(&t, "--schema") || crate::text::chars_eq_str(
            &t,
            "-s",
        ) {
            Flag::schema()
        } else if crate::text::chars_eq_str(&t, "--confirm") || crate::text::chars_eq_str(
            &t,
            "-C",
        ) {
            Flag::confirm()
        } else {
            Flag::empty()
        }
    }
}

impl Flag {
    /// The flag an unrecognised word produces.
    pub fn empty() -> (r: Flag)
        ensures
            r@ == spec_flag_empty(),
    {
        let r = Flag {
            ftype: FlagType::NoFlag,
            need_option: false,
            option: String::new(),
            early_exit: false,
        };
        proof {
            assert(r@ =~= spec_flag_empty());
        }
        r
    }

    /// A plain argument word.
    pub fn argument(arg: &str) -> (r: Flag)
        ensures
            r@ == spec_flag_argument(arg@),
    {
        let r = Flag {
            ftype: FlagType::Argument,
            need_option: true,
            option: arg.to_owned(),
            early_exit: false,
        };
        proof {
            assert(r@ =~= spec_flag_argument(arg@));
        }
        r
    }

    /// The schema flag.
    pub fn schema() -> (r: Flag)
        ensures
            r@ == spec_flag_schema(),
    {
        let r = Flag {
            ftype: FlagType::Schema,
            need_option: true,
            option: String::new(),
            early_exit: false,
        };
        proof {
            assert(r@ =~= spec_flag_schema());
        }
        r
    }

    /// The command flag.
    pub fn command() -> (r: Flag)
        ensures
            r@ == spec_flag_command(),
    {
        let r = Flag {
            ftype: FlagType::Command,
            need_option: true,
            option: String::new(),
            early_exit: false,
        };
        proof {
            assert(r@ =~= spec_flag_command());
        }
        r
    }

    /// The confirm flag.
    pub fn confirm() -> (r: Flag)
        ensures
            r@ == spec_flag_confirm(),
    {
        let r = Flag {
            ftype: FlagType::Confirm,
            need_option: false,
            option: String::new(),
            early_exit: false,
        };
        proof {
            assert(r@ =~= spec_flag_confirm());
        }
        r
    }

    /// The version flag.
    pub fn version() -> (r: Flag)
        ensures
            r@ == spec_flag_version(),
    {
        let r = Flag {
            ftype: FlagType::Version,
            need_option: false,
            option: String::new(),
            early_exit: true,
        };
        proof {
            assert(r@ =~= spec_flag_version());
        }
        r
    }

    /// The help flag.
    pub fn help() -> (r: Flag)
        ensures
            r@ == spec_flag_help(),
    {
        let r = Flag {
            ftype: FlagType::Help,
            need_option: false,
            option: String::new(),
            early_exit: true,
        };
        proof {
            assert(r@ =~= spec_flag_help());
        }
        r
    }
}

} // verus!
