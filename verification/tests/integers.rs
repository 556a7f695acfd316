use python_codegen::ast::{
    try_get_constant_string, Expression, ExpressionType, Location, StringGroup, UnaryOperator,
};
use python_codegen::integer::Integer;
use python_codegen::value::{BasicValue, IntRef, Value, ValueType};

#[test]
fn negative_truncates_to_twos_complement() {
    let five = Integer { negative: false, digits: vec![5] };
    assert_eq!(five.truncate_to_u64(), 5);
    assert_eq!(five.negated().truncate_to_u64(), 5u64.wrapping_neg());
    assert_eq!(five.negated().negated().truncate_to_u64(), 5);
}

#[test]
fn only_the_lowest_digit_is_kept() {
    let large = Integer { negative: false, digits: vec![9, 8, 7] };
    assert_eq!(large.truncate_to_u64(), 9);
    assert_eq!(large.negated().truncate_to_u64(), 9u64.wrapping_neg());
    let power = Integer { negative: true, digits: vec![0, 1] };
    assert_eq!(power.truncate_to_u64(), 0);
    let zero = Integer { negative: true, digits: vec![] };
    assert_eq!(zero.truncate_to_u64(), 0);
    let most = Integer { negative: true, digits: vec![u64::MAX] };
    assert_eq!(most.truncate_to_u64(), 1);
}

#[test]
fn constant_strings_are_joined() {
    let constant = |text: &str| StringGroup::Constant { value: text.to_string() };
    assert_eq!(try_get_constant_string(&constant("ab")), Some("ab".to_string()));
    let joined = StringGroup::Joined { values: vec![constant("a"), constant("b"), constant("c")] };
    assert_eq!(try_get_constant_string(&joined), Some("abc".to_string()));
    let empty = StringGroup::Joined { values: vec![] };
    assert_eq!(try_get_constant_string(&empty), Some(String::new()));
}

#[test]
fn formatted_strings_have_no_constant() {
    let location = Location { row: 1, column: 1 };
    let value = Box::new(Expression { location, node: ExpressionType::True });
    let formatted = StringGroup::FormattedValue { value };
    assert_eq!(try_get_constant_string(&formatted), None);
    let constant = StringGroup::Constant { value: "a".to_string() };
    let joined = StringGroup::Joined { values: vec![constant, formatted] };
    assert_eq!(try_get_constant_string(&joined), None);
}

#[test]
fn values_and_their_llvm_values_correspond() {
    let number = IntRef { id: 4, width: 16, constant: false };
    let value = Value::from_basic_value(ValueType::I16, BasicValue::Int(number));
    assert_eq!(value, Value::I16 { value: number });
    assert_eq!(value.to_basic_value(), Some(BasicValue::Int(number)));
    assert_eq!(BasicValue::Int(number).id(), 4);
    assert_eq!(Value::Void.to_basic_value(), None);
}

#[test]
fn names_of_types_and_operators() {
    assert_eq!(ValueType::Void.name(), "Void");
    assert_eq!(ValueType::F32.name(), "F32");
    assert_eq!(UnaryOperator::Inv.name(), "Inv");
}
