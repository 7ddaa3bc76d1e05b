use crate::tokens::{Token, TokenType};
use vstd::prelude::*;

verus! {

/// Where in the source a compile-time diagnostic points.
#[derive(Debug, Clone, PartialEq)]
pub enum Location {
    /// Only a line is known (scanner errors).
    Line,
    /// At the end of the input.
    AtEnd,
    /// At the token with this lexeme.
    AtLexeme(String),
}

/// One compile-time diagnostic.
#[derive(Debug, Clone, PartialEq)]
pub struct Diagnostic {
    pub line: u32,
    pub location: Location,
    pub message: String,
}

pub enum LocationView {
    Line,
    AtEnd,
    AtLexeme(Seq<char>),
}

pub struct DiagnosticView {
    pub line: u32,
    pub location: LocationView,
    pub message: Seq<char>,
}

impl View for Diagnostic {
    type V = DiagnosticView;

    open spec fn view(&self) -> DiagnosticView {
        DiagnosticView {
            line: self.line,
            location: match self.location {
                Location::Line => LocationView::Line,
                Location::AtEnd => LocationView::AtEnd,
                Location::AtLexeme(s) => LocationView::AtLexeme(s@),
            },
            message: self.message@,
        }
    }
}

/// A runtime error, tagged with the token responsible for it.
#[derive(Debug, Clone, PartialEq)]
pub struct RuntimeError {
    pub message: String,
    pub token: Token,
}

/// Collects diagnostics and the two flags that a driver reads after each phase.
#[derive(Debug)]
pub struct ErrorReporter {
    pub had_error: bool,
    pub had_runtime_error: bool,
    pub diagnostics: Vec<Diagnostic>,
    pub runtime_errors: Vec<RuntimeError>,
}

/// The diagnostic for a message at a token: at the end of input for the end
/// token, else at the token's lexeme.
pub open spec fn token_diagnostic(token: Token, message: Seq<char>) -> DiagnosticView {
    DiagnosticView {
        line: token.line,
        location: if token.token_type == TokenType::Eof {
            LocationView::AtEnd
        } else {
            LocationView::AtLexeme(token.lexeme@)
        },
        message,
    }
}

pub open spec fn line_diagnostic(line: u32, message: Seq<char>) -> DiagnosticView {
    DiagnosticView { line, location: LocationView::Line, message }
}

impl ErrorReporter {
    pub open spec fn diags(&self) -> Seq<DiagnosticView> {
        self.diagnostics@.map_values(|d: Diagnostic| d@)
    }

    /// `self` is `before` with the diagnostics `ds` reported after it.
    pub open spec fn extends(&self, before: ErrorReporter, ds: Seq<DiagnosticView>) -> bool {
        &&& self.diags() == before.diags() + ds
        &&& self.had_error == (before.had_error || ds.len() > 0)
        &&& self.had_runtime_error == before.had_runtime_error
        &&& self.runtime_errors == before.runtime_errors
    }

    pub fn new() -> (r: Self)
        ensures
            !r.had_error,
            !r.had_runtime_error,
            r.diagnostics@.len() == 0,
            r.runtime_errors@.len() == 0,
    {
        ErrorReporter {
            had_error: false,
            had_runtime_error: false,
            diagnostics: Vec::new(),
            runtime_errors: Vec::new(),
        }
    }

    /// Records a compile-time error located by line only.
    pub fn error(&mut self, line: u32, message: &str)
        ensures
            final(self).had_error,
            final(self).had_runtime_error == old(self).had_runtime_error,
            final(self).diags() == old(self).diags().push(line_diagnostic(line, message@)),
            final(self).runtime_errors == old(self).runtime_errors,
    {
        self.report(Diagnostic { line, location: Location::Line, message: message.to_owned() });
    }

    /// Records a compile-time error located at a token.
    pub fn error_at_token(&mut self, token: &Token, message: &str)
        ensures
            final(self).had_error,
            final(self).had_runtime_error == old(self).had_runtime_error,
            final(self).diags() == old(self).diags().push(token_diagnostic(*token, message@)),
            final(self).runtime_errors == old(self).runtime_errors,
            final(self).extends(*old(self), seq![token_diagnostic(*token, message@)]),
    {
        let location = if token.token_type == TokenType::Eof {
            Location::AtEnd
        } else {
            Location::AtLexeme(token.lexeme.clone())
        };
        self.report(Diagnostic { line: token.line, location, message: message.to_owned() });
        assert(self.diags() =~= old(self).diags() + seq![token_diagnostic(*token, message@)]);
    }

    /// Records a runtime error.
    pub fn runtime_error(&mut self, error: RuntimeError)
        ensures
            final(self).had_runtime_error,
            final(self).had_error == old(self).had_error,
            final(self).diagnostics == old(self).diagnostics,
            final(self).runtime_errors@ == old(self).runtime_errors@.push(error),
    {
        self.runtime_errors.push(error);
        self.had_runtime_error = true;
    }

    fn report(&mut self, d: Diagnostic)
        ensures
            final(self).had_error,
            final(self).had_runtime_error == old(self).had_runtime_error,
            final(self).diags() == old(self).diags().push(d@),
            final(self).runtime_errors == old(self).runtime_errors,
    {
        self.diagnostics.push(d);
        self.had_error = true;
        assert(self.diags() =~= old(self).diags().push(d@));
    }
}

} // verus!
