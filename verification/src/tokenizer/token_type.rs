use vstd::prelude::*;

verus! {

/// The kinds of tokens of the language.
#[derive(Clone, Copy, Debug, PartialEq, Eq, Structural)]
pub enum TokenType {
    BracOpen,
    BracClose,
    CurlOpen,
    CurlClose,
    ParOpen,
    ParClose,
    Plus,
    Min,
    Div,
    Mult,
    Inc,
    Dec,
    Eq,
    EqPlus,
    EqMin,
    EqMult,
    EqDiv,
    EqUnit,
    Number,
    Power,
    Id,
    SemiColon,
    Comma,
    Dot,
    Ellipsis,
    Pipe,
    Exclam,
    EchoCommentLine,
    MuteLine,
    MuteStart,
    MuteEnd,
    QuotedStr,
    Newline,
    Function,
    Percent,
    Modulo,
    Define,
    Undef,
    Pragma,
    Unknown,
    Eot,
    ClearUnit,
}

} // verus!
