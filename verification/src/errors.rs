//! Failure values for the engine and the translator.
//!
//! Every failure is fatal to the current run or parse. A failure carries a
//! kind, which the contracts speak about, and a diagnostic message (usually
//! the numbered source line) that can be rendered for an end user. Failures
//! raised by the run-loop itself rather than by one instruction carry no
//! message.

use vstd::prelude::*;

verus! {

/// The closed set of failure kinds a run or a parse can end with.
#[derive(Clone, Copy, Debug, PartialEq, Eq, Structural)]
pub enum ErrorKind {
    /// An operation required operands the stack did not have.
    EmptyStack,
    /// An arithmetic result was undefined or out of the signed 32-bit range.
    IntegerOverflow,
    /// A variable was read that was never written.
    UnknownVariableLoading,
    /// The instruction sequence ran out without a return instruction.
    NoReturnCommand,
    /// A loop end was reached with no active loop to match it.
    LoopInit,
    /// A loop instruction ran on an engine built without loop support.
    NoLoopInstance,
    /// A loop start was attempted while another loop was already active.
    NestedLoops,
    /// There was no code to run or to translate.
    NoCode,
    /// The translator met an unrecognized keyword or a malformed operand.
    UnknownCommand,
}

/// The mathematical content of a failure: its kind and its diagnostic line.
pub ghost struct ErrorView {
    pub kind: ErrorKind,
    pub line: Seq<char>,
}

/// The diagnostic line of an optional message, empty when there is none.
pub open spec fn message_view(message: Option<String>) -> Seq<char> {
    match message {
        Some(m) => m@,
        None => Seq::<char>::empty(),
    }
}

/// A failure surfaced by the engine while running instructions.
#[derive(Debug)]
pub struct RuntimeError {
    pub kind: ErrorKind,
    pub message: Option<String>,
}

impl View for RuntimeError {
    type V = ErrorView;

    open spec fn view(&self) -> ErrorView {
        ErrorView { kind: self.kind, line: message_view(self.message) }
    }
}

impl RuntimeError {
    /// The kind of failure this error reports.
    pub fn kind(&self) -> (k: ErrorKind)
        ensures
            k == self@.kind,
    {
        self.kind
    }

    /// The diagnostic line the failure was raised for, empty when the
    /// failure carries none.
    pub fn message(&self) -> (m: &str)
        ensures
            m@ == self@.line,
    {
        match &self.message {
            Some(m) => m.as_str(),
            None => {
                proof {
                    reveal_strlit("");
                    assert(""@ =~= Seq::<char>::empty());
                }
                ""
            },
        }
    }
}

/// A failure surfaced by the translator.
#[derive(Debug)]
pub struct ParserError {
    pub kind: ErrorKind,
    pub message: Option<String>,
}

impl View for ParserError {
    type V = ErrorView;

    open spec fn view(&self) -> ErrorView {
        ErrorView { kind: self.kind, line: message_view(self.message) }
    }
}

impl ParserError {
    /// The kind of failure this error reports.
    pub fn kind(&self) -> (k: ErrorKind)
        ensures
            k == self@.kind,
    {
        self.kind
    }

    /// The diagnostic line the failure was raised for, empty when the
    /// failure carries none.
    pub fn message(&self) -> (m: &str)
        ensures
            m@ == self@.line,
    {
        match &self.message {
            Some(m) => m.as_str(),
            None => {
                proof {
                    reveal_strlit("");
                    assert(""@ =~= Seq::<char>::empty());
                }
                ""
            },
        }
    }
}

/// An operation required operands the stack did not have.
#[derive(Debug)]
pub struct EmptyStackError {
    pub message: String,
}

impl View for EmptyStackError {
    type V = Seq<char>;

    open spec fn view(&self) -> Seq<char> {
        self.message@
    }
}

impl EmptyStackError {
    pub fn new(message: &str) -> (r: Self)
        ensures
            r@ == message@,
    {
        EmptyStackError { message: message.to_owned() }
    }
}

impl From<EmptyStackError> for RuntimeError {
    fn from(error: EmptyStackError) -> (r: RuntimeError) {
        RuntimeError { kind: ErrorKind::EmptyStack, message: Some(error.message) }
    }
}

impl vstd::std_specs::convert::FromSpecImpl<EmptyStackError> for RuntimeError {
    open spec fn obeys_from_spec() -> bool {
        true
    }

    open spec fn from_spec(error: EmptyStackError) -> RuntimeError {
        RuntimeError { kind: ErrorKind::EmptyStack, message: Some(error.message) }
    }
}

/// An arithmetic result was undefined or out of the signed 32-bit range.
#[derive(Debug)]
pub struct IntegerOverflowError {
    pub message: String,
}

impl View for IntegerOverflowError {
    type V = Seq<char>;

    open spec fn view(&self) -> Seq<char> {
        self.message@
    }
}

impl IntegerOverflowError {
    pub fn new(message: &str) -> (r: Self)
        ensures
            r@ == message@,
    {
        IntegerOverflowError { message: message.to_owned() }
    }
}

impl From<IntegerOverflowError> for RuntimeError {
    fn from(error: IntegerOverflowError) -> (r: RuntimeError) {
        RuntimeError { kind: ErrorKind::IntegerOverflow, message: Some(error.message) }
    }
}

impl vstd::std_specs::convert::FromSpecImpl<IntegerOverflowError> for RuntimeError {
    open spec fn obeys_from_spec() -> bool {
        true
    }

    open spec fn from_spec(error: IntegerOverflowError) -> RuntimeError {
        RuntimeError { kind: ErrorKind::IntegerOverflow, message: Some(error.message) }
    }
}

/// A variable was read that was never written.
#[derive(Debug)]
pub struct UnknownVariableLoadingError {
    pub message: String,
}

impl View for UnknownVariableLoadingError {
    type V = Seq<char>;

    open spec fn view(&self) -> Seq<char> {
        self.message@
    }
}

impl UnknownVariableLoadingError {
    pub fn new(message: &str) -> (r: Self)
        ensures
            r@ == message@,
    {
        UnknownVariableLoadingError { message: message.to_owned() }
    }
}

impl From<UnknownVariableLoadingError> for RuntimeError {
    fn from(error: UnknownVariableLoadingError) -> (r: RuntimeError) {
        RuntimeError { kind: ErrorKind::UnknownVariableLoading, message: Some(error.message) }
    }
}

impl vstd::std_specs::convert::FromSpecImpl<UnknownVariableLoadingError> for RuntimeError {
    open spec fn obeys_from_spec() -> bool {
        true
    }

    open spec fn from_spec(error: UnknownVariableLoadingError) -> RuntimeError {
        RuntimeError { kind: ErrorKind::UnknownVariableLoading, message: Some(error.message) }
    }
}

/// The instruction sequence ran out without a return instruction.
#[derive(Debug)]
pub struct NoReturnCommandError;

impl From<NoReturnCommandError> for RuntimeError {
    fn from(_error: NoReturnCommandError) -> (r: RuntimeError) {
        RuntimeError { kind: ErrorKind::NoReturnCommand, message: None }
    }
}

impl vstd::std_specs::convert::FromSpecImpl<NoReturnCommandError> for RuntimeError {
    open spec fn obeys_from_spec() -> bool {
        true
    }

    open spec fn from_spec(_error: NoReturnCommandError) -> RuntimeError {
        RuntimeError { kind: ErrorKind::NoReturnCommand, message: None }
    }
}

/// A loop end was reached with no active loop to match it.
#[derive(Debug)]
pub struct LoopInitError {
    pub message: String,
}

impl View for LoopInitError {
    type V = Seq<char>;

    open spec fn view(&self) -> Seq<char> {
        self.message@
    }
}

impl LoopInitError {
    pub fn new(message: &str) -> (r: Self)
        ensures
            r@ == message@,
    {
        LoopInitError { message: message.to_owned() }
    }
}

impl From<LoopInitError> for RuntimeError {
    fn from(error: LoopInitError) -> (r: RuntimeError) {
        RuntimeError { kind: ErrorKind::LoopInit, message: Some(error.message) }
    }
}

impl vstd::std_specs::convert::FromSpecImpl<LoopInitError> for RuntimeError {
    open spec fn obeys_from_spec() -> bool {
        true
    }

    open spec fn from_spec(error: LoopInitError) -> RuntimeError {
        RuntimeError { kind: ErrorKind::LoopInit, message: Some(error.message) }
    }
}

/// A loop instruction ran on an engine built without loop support.
#[derive(Debug)]
pub struct NoLoopInstanceError;

impl From<NoLoopInstanceError> for RuntimeError {
    fn from(_error: NoLoopInstanceError) -> (r: RuntimeError) {
        RuntimeError { kind: ErrorKind::NoLoopInstance, message: None }
    }
}

impl vstd::std_specs::convert::FromSpecImpl<NoLoopInstanceError> for RuntimeError {
    open spec fn obeys_from_spec() -> bool {
        true
    }

    open spec fn from_spec(_error: NoLoopInstanceError) -> RuntimeError {
        RuntimeError { kind: ErrorKind::NoLoopInstance, message: None }
    }
}

/// A loop start was attempted while another loop was already active.
#[derive(Debug)]
pub struct NestedLoopsError {
    pub message: String,
}

impl View for NestedLoopsError {
    type V = Seq<char>;

    open spec fn view(&self) -> Seq<char> {
        self.message@
    }
}

impl NestedLoopsError {
    pub fn new(message: &str) -> (r: Self)
        ensures
            r@ == message@,
    {
        NestedLoopsError { message: message.to_owned() }
    }
}

impl From<NestedLoopsError> for RuntimeError {
    fn from(error: NestedLoopsError) -> (r: RuntimeError) {
        RuntimeError { kind: ErrorKind::NestedLoops, message: Some(error.message) }
    }
}

impl vstd::std_specs::convert::FromSpecImpl<NestedLoopsError> for RuntimeError {
    open spec fn obeys_from_spec() -> bool {
        true
    }

    open spec fn from_spec(error: NestedLoopsError) -> RuntimeError {
        RuntimeError { kind: ErrorKind::NestedLoops, message: Some(error.message) }
    }
}

/// There was no code to run or to translate.
#[derive(Debug)]
pub struct NoCodeError;

impl From<NoCodeError> for RuntimeError {
    fn from(_error: NoCodeError) -> (r: RuntimeError) {
        RuntimeError { kind: ErrorKind::NoCode, message: None }
    }
}

impl vstd::std_specs::convert::FromSpecImpl<NoCodeError> for RuntimeError {
    open spec fn obeys_from_spec() -> bool {
        true
    }

    open spec fn from_spec(_error: NoCodeError) -> RuntimeError {
        RuntimeError { kind: ErrorKind::NoCode, message: None }
    }
}

impl From<NoCodeError> for ParserError {
    fn from(_error: NoCodeError) -> (r: ParserError) {
        ParserError { kind: ErrorKind::NoCode, message: None }
    }
}

impl vstd::std_specs::convert::FromSpecImpl<NoCodeError> for ParserError {
    open spec fn obeys_from_spec() -> bool {
        true
    }

    open spec fn from_spec(_error: NoCodeError) -> ParserError {
        ParserError { kind: ErrorKind::NoCode, message: None }
    }
}

/// The translator met an unrecognized keyword or a malformed operand.
#[derive(Debug)]
pub struct UnknownCommandError {
    pub message: String,
}

impl View for UnknownCommandError {
    type V = Seq<char>;

    open spec fn view(&self) -> Seq<char> {
        self.message@
    }
}

impl UnknownCommandError {
    pub fn new(message: &str) -> (r: Self)
        ensures
            r@ == message@,
    {
        UnknownCommandError { message: message.to_owned() }
    }
}

impl From<UnknownCommandError> for ParserError {
    fn from(error: UnknownCommandError) -> (r: ParserError) {
        ParserError { kind: ErrorKind::UnknownCommand, message: Some(error.message) }
    }
}

impl vstd::std_specs::convert::FromSpecImpl<UnknownCommandError> for ParserError {
    open spec fn obeys_from_spec() -> bool {
        true
    }

    open spec fn from_spec(error: UnknownCommandError) -> ParserError {
        ParserError { kind: ErrorKind::UnknownCommand, message: Some(error.message) }
    }
}

} // verus!
