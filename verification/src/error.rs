//! The errors of code generation.
use crate::ast::{Expression, ExpressionType, Location};
use vstd::prelude::*;

verus! {

/// What went wrong.
#[derive(Clone, Copy, Debug, PartialEq, Eq, Structural)]
pub enum LLVMCompileErrorType {
    NotImplemented,
    NameError,
}

/// The message of an error: a text, or the syntax that is not implemented.
#[derive(Debug)]
pub enum Message<'e> {
    Text(String),
    /// A unary operator stands before this, which is no number.
    UnaryOperand(&'e ExpressionType),
    /// No code is generated for this.
    Expression(&'e Expression),
}

/// An error and where it occurred.
#[derive(Debug)]
pub struct LLVMCompileError<'e> {
    pub location: Location,
    pub error: LLVMCompileErrorType,
    pub message: Message<'e>,
}

/// The message of an error, for contracts.
pub enum MessageView {
    Text(Seq<char>),
    UnaryOperand(ExpressionType),
    Expression(Expression),
}

impl<'e> View for Message<'e> {
    type V = MessageView;

    open spec fn view(&self) -> MessageView {
        match self {
            Message::Text(text) => MessageView::Text(text@),
            Message::UnaryOperand(node) => MessageView::UnaryOperand(**node),
            Message::Expression(expression) => MessageView::Expression(**expression),
        }
    }
}

/// An error without its place, for contracts.
pub struct Fault {
    pub error: LLVMCompileErrorType,
    pub message: MessageView,
}

impl<'e> LLVMCompileError<'e> {
    /// The error without its place.
    pub open spec fn fault(self) -> Fault {
        Fault { error: self.error, message: self.message@ }
    }
}

/// An error tells what went wrong, with the text or the syntax that its message is.
pub proof fn message_told<'e>(
    location: Location,
    error: LLVMCompileErrorType,
    text: String,
    node: &'e ExpressionType,
    expression: &'e Expression,
)
    ensures
        (LLVMCompileError { location, error, message: Message::<'e>::Text(text) }).fault() == (
        Fault { error, message: MessageView::Text(text@) }),
        (LLVMCompileError { location, error, message: Message::UnaryOperand(node) }).fault() == (
        Fault { error, message: MessageView::UnaryOperand(*node) }),
        (LLVMCompileError { location, error, message: Message::Expression(expression) }).fault()
            == (Fault { error, message: MessageView::Expression(*expression) }),
{
}

} // verus!
