//! The vocabulary of the pattern language: the raw tokens a pattern is read
//! into, the compiled tokens a path is matched against, and the mathematical
//! form of each that the contracts of this crate speak of.

use crate::decimal::decimal_text;
use vstd::prelude::*;

verus! {

/// Which dialect of the pattern language a string is written in.
#[derive(Clone, Copy, Debug, PartialEq, Eq, Structural)]
pub enum FieldType {
    /// Segments separated by `/`.
    Path,
    /// `key=value` pairs after a leading `?`, separated by `&`.
    Query,
    /// A single value after a leading `#`.
    Fragment,
}

/// Mathematical form of a capture, borrowed or owned.
pub enum CaptureSpec {
    Unnamed,
    Named(Seq<char>),
    ManyUnnamed,
    ManyNamed(Seq<char>),
    NumberedUnnamed { sections: nat },
    NumberedNamed { sections: nat, name: Seq<char> },
}

impl CaptureSpec {
    /// The name that the captured text is bound to, if the capture has one.
    pub open spec fn name(self) -> Option<Seq<char>> {
        match self {
            CaptureSpec::Named(name) => Some(name),
            CaptureSpec::ManyNamed(name) => Some(name),
            CaptureSpec::NumberedNamed { name, .. } => Some(name),
            _ => None,
        }
    }

    /// Whether the capture takes exactly one segment.
    pub open spec fn is_single(self) -> bool {
        self is Unnamed || self is Named
    }

    /// Whether the capture takes at least one segment where it takes a
    /// fixed number of them.
    pub open spec fn has_positive_count(self) -> bool {
        match self {
            CaptureSpec::NumberedUnnamed { sections } => sections > 0,
            CaptureSpec::NumberedNamed { sections, .. } => sections > 0,
            _ => true,
        }
    }

    /// The capture as it is written in a pattern.
    pub open spec fn text(self) -> Seq<char> {
        match self {
            CaptureSpec::Unnamed => seq!['*'],
            CaptureSpec::Named(name) => seq![':'] + name,
            CaptureSpec::ManyUnnamed => seq!['*', '*'],
            CaptureSpec::ManyNamed(name) => seq![':'] + name + seq!['*'],
            CaptureSpec::NumberedUnnamed { sections } => seq!['{'] + decimal_text(sections)
                + seq!['}'],
            CaptureSpec::NumberedNamed { sections, name } => seq!['{'] + decimal_text(sections)
                + seq![':'] + name + seq!['}'],
        }
    }
}

/// Mathematical form of the value of a query pair.
pub enum ValueSpec {
    Exact(Seq<char>),
    Capture(CaptureSpec),
}

impl ValueSpec {
    /// The value as it is written in a pattern.
    pub open spec fn text(self) -> Seq<char> {
        match self {
            ValueSpec::Exact(literal) => literal,
            ValueSpec::Capture(capture) => capture.text(),
        }
    }
}

/// Mathematical form of a raw token.
pub enum RawTokenSpec {
    Separator,
    Exact(Seq<char>),
    QueryBegin,
    QuerySeparator,
    FragmentBegin,
    Capture(CaptureSpec),
    Query { ident: Seq<char>, value: ValueSpec },
    End,
}

impl RawTokenSpec {
    /// Whether the token stands for a fixed piece of text and nothing else.
    pub open spec fn is_textual(self) -> bool {
        self is Separator || self is Exact || self is QueryBegin || self is QuerySeparator
            || self is FragmentBegin
    }

    /// Whether the token is literal text through and through: a textual
    /// token, or a query pair with a literal value.
    pub open spec fn is_literal(self) -> bool {
        self.is_textual() || (self matches RawTokenSpec::Query { value, .. } && value is Exact)
    }

    /// The capture that the token holds, if it holds one.
    pub open spec fn capture(self) -> Option<CaptureSpec> {
        match self {
            RawTokenSpec::Capture(capture) => Some(capture),
            RawTokenSpec::Query { value: ValueSpec::Capture(capture), .. } => Some(capture),
            _ => None,
        }
    }

    /// The token as it is written in a pattern. For a literal token this is
    /// the text that it stands for.
    pub open spec fn text(self) -> Seq<char> {
        match self {
            RawTokenSpec::Separator => seq!['/'],
            RawTokenSpec::Exact(literal) => literal,
            RawTokenSpec::QueryBegin => seq!['?'],
            RawTokenSpec::QuerySeparator => seq!['&'],
            RawTokenSpec::FragmentBegin => seq!['#'],
            RawTokenSpec::Capture(capture) => capture.text(),
            RawTokenSpec::Query { ident, value } => ident + seq!['='] + value.text(),
            RawTokenSpec::End => seq!['!'],
        }
    }
}

/// Mathematical form of a compiled token.
pub enum TokenSpec {
    Exact(Seq<char>),
    Capture(CaptureSpec),
    End,
}

impl TokenSpec {
    /// The token as it is written in a pattern.
    pub open spec fn text(self) -> Seq<char> {
        match self {
            TokenSpec::Exact(literal) => literal,
            TokenSpec::Capture(capture) => capture.text(),
            TokenSpec::End => seq!['!'],
        }
    }
}

/// A capture as the parser reads it: names borrow from the pattern.
#[derive(Clone, Copy, Debug, PartialEq, Eq)]
pub enum RefCaptureVariant<'a> {
    /// One segment, discarded.
    Unnamed,
    /// One segment, bound to the name.
    Named(&'a str),
    /// Any number of segments, discarded.
    ManyUnnamed,
    /// Any number of segments, bound to the name.
    ManyNamed(&'a str),
    /// Exactly `sections` segments, discarded.
    NumberedUnnamed { sections: usize },
    /// Exactly `sections` segments, bound to the name.
    NumberedNamed { sections: usize, name: &'a str },
}

impl<'a> View for RefCaptureVariant<'a> {
    type V = CaptureSpec;

    open spec fn view(&self) -> CaptureSpec {
        match *self {
            RefCaptureVariant::Unnamed => CaptureSpec::Unnamed,
            RefCaptureVariant::Named(name) => CaptureSpec::Named(name@),
            RefCaptureVariant::ManyUnnamed => CaptureSpec::ManyUnnamed,
            RefCaptureVariant::ManyNamed(name) => CaptureSpec::ManyNamed(name@),
            RefCaptureVariant::NumberedUnnamed { sections } => CaptureSpec::NumberedUnnamed {
                sections: sections as nat,
            },
            RefCaptureVariant::NumberedNamed { sections, name } => CaptureSpec::NumberedNamed {
                sections: sections as nat,
                name: name@,
            },
        }
    }
}

impl<'a> DeepView for RefCaptureVariant<'a> {
    type V = CaptureSpec;

    open spec fn deep_view(&self) -> CaptureSpec {
        self@
    }
}

/// The value of a query pair as the parser reads it.
#[derive(Clone, Copy, Debug, PartialEq, Eq)]
pub enum CaptureOrExact<'a> {
    Exact(&'a str),
    Capture(RefCaptureVariant<'a>),
}

impl<'a> View for CaptureOrExact<'a> {
    type V = ValueSpec;

    open spec fn view(&self) -> ValueSpec {
        match *self {
            CaptureOrExact::Exact(literal) => ValueSpec::Exact(literal@),
            CaptureOrExact::Capture(capture) => ValueSpec::Capture(capture@),
        }
    }
}

impl<'a> DeepView for CaptureOrExact<'a> {
    type V = ValueSpec;

    open spec fn deep_view(&self) -> ValueSpec {
        self@
    }
}

/// A token as the parser reads it: text borrows from the pattern.
#[derive(Clone, Copy, Debug, PartialEq, Eq)]
pub enum RouteParserToken<'a> {
    /// The path delimiter `/`.
    Separator,
    /// Text that must match letter for letter.
    Exact(&'a str),
    /// The `?` that opens a query.
    QueryBegin,
    /// The `&` between two query pairs.
    QuerySeparator,
    /// The `#` that opens a fragment.
    FragmentBegin,
    /// A placeholder for part of the input.
    Capture(RefCaptureVariant<'a>),
    /// A query key with its value, fixed or captured.
    Query { ident: &'a str, capture_or_exact: CaptureOrExact<'a> },
    /// The `!` that asks for the input to end here.
    End,
}

impl<'a> View for RouteParserToken<'a> {
    type V = RawTokenSpec;

    open spec fn view(&self) -> RawTokenSpec {
        match *self {
            RouteParserToken::Separator => RawTokenSpec::Separator,
            RouteParserToken::Exact(literal) => RawTokenSpec::Exact(literal@),
            RouteParserToken::QueryBegin => RawTokenSpec::QueryBegin,
            RouteParserToken::QuerySeparator => RawTokenSpec::QuerySeparator,
            RouteParserToken::FragmentBegin => RawTokenSpec::FragmentBegin,
            RouteParserToken::Capture(capture) => RawTokenSpec::Capture(capture@),
            RouteParserToken::Query { ident, capture_or_exact } => RawTokenSpec::Query {
                ident: ident@,
                value: capture_or_exact@,
            },
            RouteParserToken::End => RawTokenSpec::End,
        }
    }
}

impl<'a> DeepView for RouteParserToken<'a> {
    type V = RawTokenSpec;

    open spec fn deep_view(&self) -> RawTokenSpec {
        self@
    }
}

impl<'a> RouteParserToken<'a> {
    /// The text of a token that stands for text: a separator, a literal or one
    /// of the section markers.
    pub fn as_str(&self) -> (text: &str)
        requires
            self@.is_textual(),
        ensures
            text@ == self@.text(),
    {
        match self {
            RouteParserToken::Separator => {
                proof {
                    reveal_strlit("/");
                }
                assert("/"@ =~= seq!['/']);
                "/"
            },
            RouteParserToken::Exact(literal) => literal,
            RouteParserToken::QueryBegin => {
                proof {
                    reveal_strlit("?");
                }
                assert("?"@ =~= seq!['?']);
                "?"
            },
            RouteParserToken::QuerySeparator => {
                proof {
                    reveal_strlit("&");
                }
                assert("&"@ =~= seq!['&']);
                "&"
            },
            RouteParserToken::FragmentBegin => {
                proof {
                    reveal_strlit("#");
                }
                assert("#"@ =~= seq!['#']);
                "#"
            },
            _ => {
                assert(false);
                ""
            },
        }
    }
}

/// A capture as a compiled pattern holds it: names are owned.
#[derive(Debug, PartialEq, Eq)]
pub enum CaptureVariant {
    /// One segment, discarded.
    Unnamed,
    /// One segment, bound to the name.
    Named(String),
    /// Any number of segments, discarded.
    ManyUnnamed,
    /// Any number of segments, bound to the name.
    ManyNamed(String),
    /// Exactly `sections` segments, discarded.
    NumberedUnnamed { sections: usize },
    /// Exactly `sections` segments, bound to the name.
    NumberedNamed { sections: usize, name: String },
}

impl View for CaptureVariant {
    type V = CaptureSpec;

    open spec fn view(&self) -> CaptureSpec {
        match *self {
            CaptureVariant::Unnamed => CaptureSpec::Unnamed,
            CaptureVariant::Named(name) => CaptureSpec::Named(name@),
            CaptureVariant::ManyUnnamed => CaptureSpec::ManyUnnamed,
            CaptureVariant::ManyNamed(name) => CaptureSpec::ManyNamed(name@),
            CaptureVariant::NumberedUnnamed { sections } => CaptureSpec::NumberedUnnamed {
                sections: sections as nat,
            },
            CaptureVariant::NumberedNamed { sections, name } => CaptureSpec::NumberedNamed {
                sections: sections as nat,
                name: name@,
            },
        }
    }
}

impl DeepView for CaptureVariant {
    type V = CaptureSpec;

    open spec fn deep_view(&self) -> CaptureSpec {
        self@
    }
}

impl Clone for CaptureVariant {
    fn clone(&self) -> (copy: Self)
        ensures
            copy@ == self@,
    {
        match self {
            CaptureVariant::Unnamed => CaptureVariant::Unnamed,
            CaptureVariant::Named(name) => CaptureVariant::Named(name.clone()),
            CaptureVariant::ManyUnnamed => CaptureVariant::ManyUnnamed,
            CaptureVariant::ManyNamed(name) => CaptureVariant::ManyNamed(name.clone()),
            CaptureVariant::NumberedUnnamed { sections } => CaptureVariant::NumberedUnnamed {
                sections: *sections,
            },
            CaptureVariant::NumberedNamed { sections, name } => CaptureVariant::NumberedNamed {
                sections: *sections,
                name: name.clone(),
            },
        }
    }
}

/// A token of a compiled pattern.
#[derive(Debug, PartialEq, Eq)]
pub enum MatcherToken {
    /// Text that the input must continue with.
    Exact(String),
    /// A placeholder that takes part of the input.
    Capture(CaptureVariant),
    /// The input must end here.
    End,
}

impl View for MatcherToken {
    type V = TokenSpec;

    open spec fn view(&self) -> TokenSpec {
        match *self {
            MatcherToken::Exact(literal) => TokenSpec::Exact(literal@),
            MatcherToken::Capture(capture) => TokenSpec::Capture(capture@),
            MatcherToken::End => TokenSpec::End,
        }
    }
}

impl DeepView for MatcherToken {
    type V = TokenSpec;

    open spec fn deep_view(&self) -> TokenSpec {
        self@
    }
}

impl Clone for MatcherToken {
    fn clone(&self) -> (copy: Self)
        ensures
            copy@ == self@,
    {
        match self {
            MatcherToken::Exact(literal) => MatcherToken::Exact(literal.clone()),
            MatcherToken::Capture(capture) => MatcherToken::Capture(capture.clone()),
            MatcherToken::End => MatcherToken::End,
        }
    }
}

} // verus!
