//! The syntax tree of Python expressions that code is generated from.
use crate::integer::Integer;
use vstd::prelude::*;

verus! {

/// A position in the source text.
#[derive(Clone, Copy, Debug, PartialEq, Eq, Structural)]
pub struct Location {
    pub row: usize,
    pub column: usize,
}

/// An expression and the place where it starts.
#[derive(Debug)]
pub struct Expression {
    pub location: Location,
    pub node: ExpressionType,
}

/// The forms of expressions.
#[allow(inconsistent_fields)]
#[derive(Debug)]
pub enum ExpressionType {
    BoolOp { op: BooleanOperator, values: Vec<Expression> },
    Binop { a: Box<Expression>, op: Operator, b: Box<Expression> },
    Unop { op: UnaryOperator, a: Box<Expression> },
    Compare { vals: Vec<Expression>, ops: Vec<Comparison> },
    Call { function: Box<Expression>, args: Vec<Expression>, keywords: Vec<Keyword> },
    Number { value: Number },
    List { elements: Vec<Expression> },
    Tuple { elements: Vec<Expression> },
    String { value: StringGroup },
    Identifier { name: String },
    True,
    False,
    /// The literal `None`.
    NoneConstant,
    /// Any form that no code is generated for. `text` is how the parser prints the expression.
    Other { text: String },
}

/// A keyword argument of a call; `**mapping` has no name.
#[derive(Debug)]
pub struct Keyword {
    pub name: Option<String>,
    pub value: Expression,
}

/// A number literal. A floating point number is given by the bits of its double precision
/// encoding.
#[derive(Debug)]
pub enum Number {
    Integer { value: Integer },
    Float { bits: u64 },
    Complex { real_bits: u64, imag_bits: u64 },
}

/// A string literal: a constant, the braces of a formatted string, or several of them in a row.
#[allow(inconsistent_fields)]
#[derive(Debug)]
pub enum StringGroup {
    Constant { value: String },
    FormattedValue { value: Box<Expression> },
    Joined { values: Vec<StringGroup> },
}

#[derive(Clone, Copy, Debug, PartialEq, Eq, Structural)]
pub enum BooleanOperator {
    And,
    Or,
}

#[derive(Clone, Copy, Debug, PartialEq, Eq, Structural)]
pub enum UnaryOperator {
    Pos,
    Neg,
    Not,
    Inv,
}

#[derive(Clone, Copy, Debug, PartialEq, Eq, Structural)]
pub enum Operator {
    Add,
    Sub,
    Mult,
    MatMult,
    Div,
    Mod,
    Pow,
    LShift,
    RShift,
    BitOr,
    BitXor,
    BitAnd,
    FloorDiv,
}

#[derive(Clone, Copy, Debug, PartialEq, Eq, Structural)]
pub enum Comparison {
    Equal,
    NotEqual,
    Less,
    LessOrEqual,
    Greater,
    GreaterOrEqual,
    In,
    NotIn,
    Is,
    IsNot,
}

impl UnaryOperator {
    /// The operator's name.
    pub open spec fn spec_name(self) -> Seq<char> {
        match self {
            UnaryOperator::Pos => "Pos"@,
            UnaryOperator::Neg => "Neg"@,
            UnaryOperator::Not => "Not"@,
            UnaryOperator::Inv => "Inv"@,
        }
    }

    /// The operator's name.
    pub fn name(self) -> (r: &'static str)
        ensures
            r@ == self.spec_name(),
    {
        match self {
            UnaryOperator::Pos => "Pos",
            UnaryOperator::Neg => "Neg",
            UnaryOperator::Not => "Not",
            UnaryOperator::Inv => "Inv",
        }
    }
}

/// The text of a string literal that has no formatted parts.
pub open spec fn constant_text(group: StringGroup) -> Option<Seq<char>>
    decreases group, 0nat,
{
    match group {
        StringGroup::Constant { value } => Some(value@),
        StringGroup::FormattedValue { .. } => None,
        StringGroup::Joined { values } => joined_text(values@, values@.len()),
    }
}

/// The text of the first `n` of `values`, one after the other, if none of them has formatted
/// parts.
pub open spec fn joined_text(values: Seq<StringGroup>, n: nat) -> Option<Seq<char>>
    decreases values, n,
{
    if n == 0 || n > values.len() {
        Some(Seq::empty())
    } else {
        match (joined_text(values, (n - 1) as nat), constant_text(values[n - 1])) {
            (Some(before), Some(last)) => Some(before + last),
            _ => None,
        }
    }
}

/// The text of a string literal, or `None` if it has formatted parts.
pub fn try_get_constant_string(group: &StringGroup) -> (r: Option<String>)
    ensures
        (match r {
            Some(text) => constant_text(*group) == Some(text@),
            None => constant_text(*group) is None,
        }),
    decreases group,
{
    match group {
        StringGroup::Constant { value } => Some(value.clone()),
        StringGroup::FormattedValue { .. } => None,
        StringGroup::Joined { values } => {
            let mut text = String::new();
            for i in 0..values.len()
                invariant
                    joined_text(values@, i as nat) == Some(text@),
                    constant_text(*group) == joined_text(values@, values@.len()),
                    decreases_to!(*group => values@),
            {
                match try_get_constant_string(&values[i]) {
                    Some(part) => {
                        text.append(part.as_str());
                    },
                    None => {
                        proof {
                            lemma_formatted_part(values@, (i + 1) as nat, values@.len());
                        }
                        return None;
                    },
                }
            }
            Some(text)
        },
    }
}

/// A formatted part among the first `n` makes all longer runs formatted too.
proof fn lemma_formatted_part(values: Seq<StringGroup>, n: nat, m: nat)
    requires
        joined_text(values, n) is None,
        n <= m <= values.len(),
    ensures
        joined_text(values, m) is None,
    decreases m,
{
    if n < m {
        lemma_formatted_part(values, n, (m - 1) as nat);
    }
}

/// The texts of the parts of a string literal, one for each.
pub open spec fn part_texts(values: Seq<StringGroup>) -> Seq<Seq<char>> {
    Seq::new(values.len(), |i: int| constant_text(values[i])->0)
}

/// How many characters the first `i` of `texts` have together.
pub open spec fn total_length(texts: Seq<Seq<char>>, i: nat) -> nat
    decreases i,
{
    if i == 0 {
        0
    } else {
        total_length(texts, (i - 1) as nat) + texts[i - 1].len()
    }
}

/// A constant has the text that it is written with, and what is formatted has none. Literals in a
/// row have a text if and only if all of them have one. It is their texts one after the other, in
/// the order they are written: that of literal `i` stands after those of all the literals before
/// it, and nothing else stands there.
pub proof fn literals_joined_in_order(
    text: String,
    formatted: Box<Expression>,
    values: Vec<StringGroup>,
)
    ensures
        constant_text(StringGroup::Constant { value: text }) == Some(text@),
        constant_text(StringGroup::FormattedValue { value: formatted }) is None,
        constant_text(StringGroup::Joined { values }) is Some <==> forall|i: int|
            0 <= i < values@.len() ==> constant_text(#[trigger] values@[i]) is Some,
        constant_text(StringGroup::Joined { values }) matches Some(all) ==> {
            let texts = part_texts(values@);
            &&& all == texts.flatten()
            &&& all.len() == total_length(texts, values@.len())
            &&& forall|i: nat|
                #![trigger total_length(texts, i)]
                i < values@.len() ==> {
                    let from = total_length(texts, i);
                    let to = from + texts[i as int].len();
                    &&& to <= all.len()
                    &&& all.subrange(from as int, to as int) == texts[i as int]
                }
        },
{
    lemma_joined(values@, values@.len());
    assert(part_texts(values@).take(values@.len() as int) =~= part_texts(values@));
}

/// The same of the first `n` literals in a row.
proof fn lemma_joined(values: Seq<StringGroup>, n: nat)
    requires
        n <= values.len(),
    ensures
        joined_text(values, n) is Some <==> forall|i: int|
            0 <= i < n ==> constant_text(#[trigger] values[i]) is Some,
        joined_text(values, n) matches Some(all) ==> {
            let texts = part_texts(values);
            &&& all == texts.take(n as int).flatten()
            &&& all.len() == total_length(texts, n)
            &&& forall|i: nat|
                #![trigger total_length(texts, i)]
                i < n ==> {
                    let from = total_length(texts, i);
                    let to = from + texts[i as int].len();
                    &&& to <= all.len()
                    &&& all.subrange(from as int, to as int) == texts[i as int]
                }
        },
    decreases n,
{
    let texts = part_texts(values);
    if n == 0 {
        assert(texts.take(0).flatten() =~= Seq::empty());
    } else {
        let k = (n - 1) as nat;
        lemma_joined(values, k);
        if let Some(all) = joined_text(values, n) {
            let before = joined_text(values, k)->0;
            let last = texts[k as int];
            texts.take(k as int).lemma_flatten_push(last);
            assert(texts.take(k as int).push(last) =~= texts.take(n as int));
            assert(total_length(texts, n) == total_length(texts, k) + last.len());
            assert forall|i: nat| #![trigger total_length(texts, i)] i < n implies {
                let from = total_length(texts, i);
                let to = from + texts[i as int].len();
                &&& to <= all.len()
                &&& all.subrange(from as int, to as int) == texts[i as int]
            } by {
                let from = total_length(texts, i) as int;
                let to = from + texts[i as int].len();
                if i < k {
                    assert(all.subrange(from, to) =~= before.subrange(from, to));
                } else {
                    assert(all.subrange(from, to) =~= last);
                }
            }
        }
    }
}

/// The names of signs are those that they are written with.
pub proof fn sign_names()
    ensures
        UnaryOperator::Pos.spec_name() == "Pos"@,
        UnaryOperator::Neg.spec_name() == "Neg"@,
        UnaryOperator::Not.spec_name() == "Not"@,
        UnaryOperator::Inv.spec_name() == "Inv"@,
{
}

} // verus!
