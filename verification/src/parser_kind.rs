//! A parser that runs one of two analyzers, Komoran by default, switching
//! to Khaiii only when Khaiii is installed; its words keep repeats.

use vstd::prelude::*;
use crate::parser::{
    json_morphs, json_word_morphs, khaiii_join, khaiii_parse, komoran_join, komoran_parse,
    words_outcome, AnalysisError,
};
use crate::text::trim;

verus! {

/// Which analyzer a parser runs.
#[derive(Debug, Clone, Copy, PartialEq, Eq, Structural)]
pub enum ParserKind {
    Khaiii,
    Komoran,
}

impl Default for ParserKind {
    /// Komoran.
    fn default() -> (k: ParserKind)
        ensures
            k == ParserKind::Komoran,
    {
        ParserKind::Komoran
    }
}

/// A parser that runs the analyzer of its kind.
#[derive(Debug, Clone, Copy, PartialEq, Eq, Structural)]
pub struct Parser {
    pub parser: ParserKind,
}

impl Parser {
    /// The analyzer this parser runs.
    pub open spec fn kind(&self) -> ParserKind {
        self.parser
    }

    /// A parser running Komoran.
    pub fn new() -> (p: Parser)
        ensures
            p.kind() == ParserKind::Komoran,
    {
        Parser { parser: ParserKind::default() }
    }

    /// The analyzer this parser runs.
    pub fn parser_type(&self) -> (k: ParserKind)
        ensures
            k == self.kind(),
    {
        self.parser
    }

    /// Switches to `parser`; Khaiii is only taken when it is installed
    /// (`khaiii_installed`), else the parser runs Komoran.
    pub fn change_parser(self, parser: ParserKind, khaiii_installed: bool) -> (p: Parser)
        ensures
            p.kind() == if parser == ParserKind::Khaiii && khaiii_installed {
                ParserKind::Khaiii
            } else {
                ParserKind::Komoran
            },
    {
        let mut s = self;
        let chosen = match (parser, khaiii_installed) {
            (ParserKind::Khaiii, true) => ParserKind::Khaiii,
            (ParserKind::Khaiii, false) => ParserKind::Komoran,
            (ParserKind::Komoran, _) => ParserKind::Komoran,
        };
        s.parser = chosen;
        s
    }

    /// The words of the analyzer output of this parser's kind.
    pub fn parse(&self, analysis: &str) -> (r: Result<Vec<String>, AnalysisError>)
        ensures
            self.kind() == ParserKind::Komoran ==> words_outcome(
                json_morphs(trim(analysis@)) is Some,
                komoran_join(json_morphs(trim(analysis@))->0),
                r,
            ),
            self.kind() == ParserKind::Khaiii ==> words_outcome(
                json_word_morphs(trim(analysis@)) is Some,
                khaiii_join(json_word_morphs(trim(analysis@))->0),
                r,
            ),
    {
        match self.parser {
            ParserKind::Khaiii => khaiii_parse(analysis),
            ParserKind::Komoran => komoran_parse(analysis),
        }
    }
}

} // verus!
