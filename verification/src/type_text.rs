//! The types of LLVM, read from the texts that LLVM prints for them.
use crate::value::{BasicType, Precision, Target};
use vstd::prelude::*;

verus! {

/// The widest integers that LLVM has.
pub open spec fn max_width() -> u32 {
    0x80_0000
}

/// The digit that `c` is.
pub open spec fn digit(c: char) -> int {
    c as int - '0' as int
}

/// The number that the first `n` characters of `text` write in decimal digits.
pub open spec fn decimal(text: Seq<char>, n: nat) -> int
    decreases n,
{
    if n == 0 || n > text.len() {
        0
    } else {
        decimal(text, (n - 1) as nat) * 10 + digit(text[n - 1])
    }
}

/// Whether `text` is made of decimal digits.
pub open spec fn all_digits(text: Seq<char>) -> bool {
    forall|i: int| 0 <= i < text.len() ==> 0 <= digit(#[trigger] text[i]) <= 9
}

/// The integer type whose text is an `i` and `width`.
pub open spec fn int_type(width: Seq<char>) -> BasicType {
    let number = decimal(width, width.len());
    if 1 <= width.len() <= 7 && all_digits(width) && 1 <= number <= max_width() {
        BasicType::Int { width: number as u32 }
    } else {
        BasicType::Unknown
    }
}

/// The floating point type whose text is `text`. LLVM has one more, `bfloat`, which inkwell has no
/// values of.
pub open spec fn float_type(text: Seq<char>) -> Option<Precision> {
    if text == "half"@ {
        Some(Precision::Half)
    } else if text == "float"@ {
        Some(Precision::Single)
    } else if text == "double"@ {
        Some(Precision::Double)
    } else if text == "x86_fp80"@ {
        Some(Precision::Extended)
    } else if text == "fp128"@ {
        Some(Precision::Quadruple)
    } else if text == "ppc_fp128"@ {
        Some(Precision::PairedDouble)
    } else {
        None
    }
}

/// The type of numbers whose text is `text`, if any.
pub open spec fn number_type(text: Seq<char>) -> BasicType {
    match float_type(text) {
        Some(precision) => BasicType::Float { precision },
        None => if text.len() > 0 && text[0] == 'i' {
            int_type(text.skip(1))
        } else {
            BasicType::Unknown
        },
    }
}

/// Where `text` stands first among the first `n` of `listed`.
pub open spec fn position(listed: Seq<Seq<char>>, text: Seq<char>, n: nat) -> Option<nat>
    decreases n,
{
    if n == 0 || n > listed.len() {
        None
    } else {
        match position(listed, text, (n - 1) as nat) {
            Some(i) => Some(i),
            None => if listed[n - 1] == text {
                Some((n - 1) as nat)
            } else {
                None
            },
        }
    }
}

/// Whether `text` holds the address that LLVM prints for a struct without a name, or a name that
/// looks like it. Two types can have such a text.
pub open spec fn unnamed(text: Seq<char>) -> bool {
    exists|i: int|
        0 <= i <= text.len() && "%\"type 0x"@.is_prefix_of(#[trigger] text.skip(i))
}

/// What the pointers point to whose type has the text `text`, a star at its end.
pub open spec fn target_type(listed: Seq<Seq<char>>, text: Seq<char>) -> Target {
    match number_type(text.drop_last()) {
        BasicType::Int { width } => Target::Int { width },
        BasicType::Float { precision } => Target::Float { precision },
        _ => if unnamed(text) {
            Target::Unlisted
        } else {
            match position(listed, text, listed.len()) {
                Some(i) => Target::Listed { number: i as usize },
                None => Target::Unlisted,
            }
        },
    }
}

/// The type whose text is `text`. Pointers to what is no number are told apart if their types are
/// `listed`.
pub open spec fn basic_type(listed: Seq<Seq<char>>, text: Seq<char>) -> BasicType {
    if text.len() == 0 {
        BasicType::Unknown
    } else if text.last() == '*' {
        BasicType::Pointer { target: target_type(listed, text) }
    } else if text.last() == ')' {
        // A function.
        BasicType::Unknown
    } else if text[0] == '[' && text.last() == ']' {
        BasicType::Array { sized: !text.contains('%') }
    } else if text[0] == '{' && text.last() == '}' || text[0] == '%' {
        BasicType::Struct
    } else if text[0] == '<' && text.last() == '>' {
        // A packed struct, a vector whose length the processor tells, or another vector.
        if text[1] == '{' {
            BasicType::Struct
        } else if text[1] == 'v' {
            BasicType::Unknown
        } else {
            BasicType::Vector
        }
    } else {
        number_type(text)
    }
}

/// Where the last space of the first `n` characters of `text` stands.
pub open spec fn last_space(text: Seq<char>, n: nat) -> Option<int>
    decreases n,
{
    if n == 0 || n > text.len() {
        None
    } else if text[n - 1] == ' ' {
        Some(n - 1)
    } else {
        last_space(text, (n - 1) as nat)
    }
}

/// Whether `text` names an address space: nothing but a number stands in the parentheses.
pub open spec fn is_space(text: Seq<char>) -> bool {
    &&& " addrspace("@.is_prefix_of(text)
    &&& text.last() == ')'
    &&& forall|i: int|
        " addrspace("@.len() <= i < text.len() - 1 ==> 0 <= digit(#[trigger] text[i]) <= 9
}

/// `text` without an address space at its end.
pub open spec fn without_space(text: Seq<char>) -> Seq<char> {
    match last_space(text, text.len()) {
        Some(i) => if is_space(text.skip(i)) {
            text.take(i)
        } else {
            text
        },
        None => text,
    }
}

/// The text of the type of what a pointer points to whose type has the text `text`.
pub open spec fn pointee_text(text: Seq<char>) -> Seq<char> {
    if text.len() > 0 && text.last() == '*' {
        without_space(text.drop_last())
    } else {
        Seq::empty()
    }
}

/// `listed`, and `text` too if it is the type of pointers that are told apart by it.
pub open spec fn listed_with(listed: Seq<Seq<char>>, text: Seq<char>) -> Seq<Seq<char>> {
    if basic_type(listed, text) == (BasicType::Pointer { target: Target::Unlisted }) && !unnamed(
        text,
    ) {
        listed.push(text)
    } else {
        listed
    }
}

/// Whether `c` opens a part of a type.
pub open spec fn opens(c: char) -> bool {
    c == '(' || c == '[' || c == '{' || c == '<'
}

/// Whether `c` closes a part of a type.
pub open spec fn closes(c: char) -> bool {
    c == ')' || c == ']' || c == '}' || c == '>'
}

/// How far the reading of a function's type has come.
pub struct Reading {
    /// How many parts are open.
    pub depth: nat,
    /// Whether it is within a quoted name.
    pub quoted: bool,
    /// Whether the outermost open part is in parentheses: the parameters, unless another such part
    /// follows.
    pub listed: bool,
    /// Where that part was opened.
    pub head: int,
    /// Where the parameter starts that is being read.
    pub start: int,
    /// Whether values are handled of the types of all parameters before.
    pub known: bool,
}

/// Whether `text` can stand for a parameter: a type that values are handled of, or nothing, or the
/// dots for any further parameters.
pub open spec fn parameter_known(text: Seq<char>) -> bool {
    text.len() == 0 || text == "..."@ || !(basic_type(Seq::empty(), text) is Unknown)
}

/// The part of `text` from `start` to `end`.
pub open spec fn part(text: Seq<char>, start: int, end: int) -> Seq<char> {
    if 0 <= start <= end <= text.len() {
        text.subrange(start, end)
    } else {
        Seq::empty()
    }
}

/// The part of `text` from `start` to `end`, without a space in front.
pub open spec fn parameter_part(text: Seq<char>, start: int, end: int) -> Seq<char> {
    if 0 <= start < end <= text.len() && text[start] == ' ' {
        part(text, start + 1, end)
    } else {
        part(text, start, end)
    }
}

/// The reading of one more character, the one at `i`.
pub open spec fn read_on(reading: Reading, text: Seq<char>, i: int) -> Reading {
    let c = text[i];
    if c == '"' {
        Reading { quoted: !reading.quoted, ..reading }
    } else if reading.quoted {
        reading
    } else if opens(c) && reading.depth == 0 {
        Reading {
            depth: 1,
            quoted: false,
            listed: c == '(',
            head: i,
            start: i + 1,
            known: true,
        }
    } else if opens(c) {
        Reading { depth: reading.depth + 1, ..reading }
    } else if closes(c) && reading.depth == 1 {
        Reading {
            depth: 0,
            known: reading.known && parameter_known(parameter_part(text, reading.start, i)),
            ..reading
        }
    } else if closes(c) && reading.depth > 1 {
        Reading { depth: (reading.depth - 1) as nat, ..reading }
    } else if c == ',' && reading.depth == 1 {
        Reading {
            start: i + 1,
            known: reading.known && parameter_known(parameter_part(text, reading.start, i)),
            ..reading
        }
    } else {
        reading
    }
}

/// The reading of the first `n` characters of `text`.
pub open spec fn read(text: Seq<char>, n: nat) -> Reading
    decreases n,
{
    if n == 0 || n > text.len() {
        Reading { depth: 0, quoted: false, listed: false, head: 0, start: 0, known: false }
    } else {
        read_on(read(text, (n - 1) as nat), text, n - 1)
    }
}

/// Whether values are handled of the types of all parameters of the function type `text`, which is
/// the type of the result, a space, and the parameters in parentheses.
pub open spec fn parameters_known(text: Seq<char>) -> bool {
    let reading = read(text, text.len());
    reading.depth == 0 && reading.listed && reading.known
}

/// The type of the result of the function type `text`; there is none if it is void.
pub open spec fn result_type_of(listed: Seq<Seq<char>>, text: Seq<char>) -> Option<BasicType> {
    let result = part(text, 0, read(text, text.len()).head - 1);
    if result == "void"@ {
        None
    } else {
        Some(basic_type(listed, result))
    }
}

/// A number of `n` digits is less than 10 to the power `n`.
proof fn lemma_decimal(text: Seq<char>, n: nat)
    requires
        n <= text.len(),
        n <= 7,
        forall|i: int| 0 <= i < n ==> 0 <= digit(#[trigger] text[i]) <= 9,
    ensures
        0 <= decimal(text, n) < vstd::arithmetic::power::pow(10, n),
    decreases n,
{
    reveal(vstd::arithmetic::power::pow);
    if n > 0 {
        lemma_decimal(text, (n - 1) as nat);
    }
}

/// The integer type whose text is an `i` and `text`.
fn read_width(text: &str) -> (r: BasicType)
    ensures
        r == int_type(text@),
{
    let n: usize = text.unicode_len();
    if n == 0 || n > 7 {
        return BasicType::Unknown;
    }
    let mut number: u32 = 0;
    for i in 0..n
        invariant
            n == text@.len(),
            1 <= n <= 7,
            number == decimal(text@, i as nat),
            forall|j: int| 0 <= j < i ==> 0 <= digit(#[trigger] text@[j]) <= 9,
    {
        let c: char = text.get_char(i);
        if c < '0' || c > '9' {
            return BasicType::Unknown;
        }
        proof {
            lemma_decimal(text@, i as nat);
            lemma_small_power(i as nat);
        }
        number = number * 10 + (c as u32 - '0' as u32);
    }
    if number == 0 || number > 0x80_0000 {
        return BasicType::Unknown;
    }
    BasicType::Int { width: number }
}

/// Powers of ten that are small enough.
proof fn lemma_small_power(n: nat)
    requires
        n <= 6,
    ensures
        vstd::arithmetic::power::pow(10, n) <= 1_000_000,
{
    reveal(vstd::arithmetic::power::pow);
    reveal_with_fuel(vstd::arithmetic::power::pow, 8);
}

/// Whether two texts are the same.
fn same_text(one: &str, other: &str) -> (r: bool)
    ensures
        r == (one@ == other@),
{
    one.to_string() == other.to_string()
}

/// The type of numbers whose text is `text`.
fn read_number_type(text: &str) -> (r: BasicType)
    ensures
        r == number_type(text@),
{
    if same_text(text, "half") {
        BasicType::Float { precision: Precision::Half }
    } else if same_text(text, "float") {
        BasicType::Float { precision: Precision::Single }
    } else if same_text(text, "double") {
        BasicType::Float { precision: Precision::Double }
    } else if same_text(text, "x86_fp80") {
        BasicType::Float { precision: Precision::Extended }
    } else if same_text(text, "fp128") {
        BasicType::Float { precision: Precision::Quadruple }
    } else if same_text(text, "ppc_fp128") {
        BasicType::Float { precision: Precision::PairedDouble }
    } else {
        let n: usize = text.unicode_len();
        if n > 0 && text.get_char(0) == 'i' {
            let width = text.substring_char(1, n);
            assert(width@ =~= text@.skip(1));
            read_width(width)
        } else {
            BasicType::Unknown
        }
    }
}

/// Whether `c` is among the characters of `text`.
fn has_char(text: &str, c: char) -> (r: bool)
    ensures
        r == text@.contains(c),
{
    let n: usize = text.unicode_len();
    for i in 0..n
        invariant
            n == text@.len(),
            forall|j: int| 0 <= j < i ==> text@[j] != c,
    {
        if text.get_char(i) == c {
            return true;
        }
    }
    false
}

/// The texts of some types.
pub open spec fn texts(types: Seq<String>) -> Seq<Seq<char>> {
    types.map_values(|text: String| text@)
}

/// What the pointers point to whose type has the text `text`, a star at its end.
pub fn read_target(listed: &Vec<String>, text: &str) -> (r: Target)
    requires
        text@.len() > 0,
    ensures
        r == target_type(texts(listed@), text@),
{
    let before = text.substring_char(0, text.unicode_len() - 1);
    assert(before@ =~= text@.drop_last());
    match read_number_type(before) {
        BasicType::Int { width } => Target::Int { width },
        BasicType::Float { precision } => Target::Float { precision },
        _ => if is_unnamed(text) {
            Target::Unlisted
        } else {
            match find(listed, text) {
                Some(number) => Target::Listed { number },
                None => Target::Unlisted,
            }
        },
    }
}

/// Whether `word` stands at the start of `text`.
fn starts_with(text: &str, word: &str) -> (r: bool)
    ensures
        r == word@.is_prefix_of(text@),
{
    let length: usize = word.unicode_len();
    if text.unicode_len() < length {
        return false;
    }
    let start = text.substring_char(0, length);
    assert(start@ =~= text@.take(length as int));
    same_text(start, word)
}

/// Whether `text` holds the address that LLVM prints for a struct without a name, or a name that
/// looks like it.
pub fn is_unnamed(text: &str) -> (r: bool)
    ensures
        r == unnamed(text@),
{
    let n: usize = text.unicode_len();
    for i in 0..n
        invariant
            n == text@.len(),
            forall|j: int|
                0 <= j < i ==> !"%\"type 0x"@.is_prefix_of(#[trigger] text@.skip(j)),
    {
        let rest = text.substring_char(i, n);
        assert(rest@ =~= text@.skip(i as int));
        if starts_with(rest, "%\"type 0x") {
            return true;
        }
    }
    proof {
        reveal_strlit("%\"type 0x");
    }
    false
}

/// Where `text` stands first in `listed`.
fn find(listed: &Vec<String>, text: &str) -> (r: Option<usize>)
    ensures
        (match r {
            Some(i) => position(texts(listed@), text@, listed@.len()) == Some(i as nat),
            None => position(texts(listed@), text@, listed@.len()) is None,
        }),
{
    for i in 0..listed.len()
        invariant
            position(texts(listed@), text@, i as nat) is None,
    {
        if same_text(listed[i].as_str(), text) {
            proof {
                lemma_position(texts(listed@), text@, (i + 1) as nat, listed@.len());
            }
            return Some(i);
        }
    }
    None
}

/// Whether `text` ends with a star, as the types of pointers do.
pub fn ends_with_star(text: &str) -> (r: bool)
    ensures
        r == (text@.len() > 0 && text@.last() == '*'),
{
    let n: usize = text.unicode_len();
    n > 0 && text.get_char(n - 1) == '*'
}

/// What stands first among some stands first among more of them.
proof fn lemma_position(listed: Seq<Seq<char>>, text: Seq<char>, n: nat, m: nat)
    requires
        n <= m <= listed.len(),
        position(listed, text, n) is Some,
    ensures
        position(listed, text, m) == position(listed, text, n),
    decreases m,
{
    if n < m {
        lemma_position(listed, text, n, (m - 1) as nat);
    }
}

/// The type whose text is `text`.
pub fn read_type(listed: &Vec<String>, text: &str) -> (r: BasicType)
    ensures
        r == basic_type(texts(listed@), text@),
{
    let n: usize = text.unicode_len();
    if n == 0 {
        return BasicType::Unknown;
    }
    let first: char = text.get_char(0);
    let last: char = text.get_char(n - 1);
    if last == '*' {
        BasicType::Pointer { target: read_target(listed, text) }
    } else if last == ')' {
        BasicType::Unknown
    } else if first == '[' && last == ']' {
        BasicType::Array { sized: !has_char(text, '%') }
    } else if first == '{' && last == '}' || first == '%' {
        BasicType::Struct
    } else if first == '<' && last == '>' {
        let second: char = text.get_char(1);
        if second == '{' {
            BasicType::Struct
        } else if second == 'v' {
            BasicType::Unknown
        } else {
            BasicType::Vector
        }
    } else {
        read_number_type(text)
    }
}

/// Whether `text` names an address space.
fn reads_space(text: &str) -> (r: bool)
    ensures
        r == is_space(text@),
{
    let n: usize = text.unicode_len();
    let word: &str = " addrspace(";
    if !starts_with(text, word) {
        return false;
    }
    let length: usize = word.unicode_len();
    proof {
        reveal_strlit(" addrspace(");
        assert(text@[length - 1] == text@.take(length as int)[length - 1]);
    }
    if text.get_char(n - 1) != ')' {
        return false;
    }
    for i in length..n - 1
        invariant
            n == text@.len(),
            0 < n,
            length == " addrspace("@.len(),
            forall|j: int| length <= j < i ==> 0 <= digit(#[trigger] text@[j]) <= 9,
    {
        let c: char = text.get_char(i);
        if c < '0' || c > '9' {
            return false;
        }
    }
    true
}

/// `text` without an address space at its end.
fn cut_space(text: &str) -> (r: &str)
    ensures
        r@ == without_space(text@),
{
    let n: usize = text.unicode_len();
    let mut i: usize = n;
    while i > 0
        invariant
            i <= n == text@.len(),
            last_space(text@, text@.len()) == last_space(text@, i as nat),
        decreases i,
    {
        i = i - 1;
        if text.get_char(i) == ' ' {
            let end = text.substring_char(i, n);
            let rest = text.substring_char(0, i);
            assert(end@ =~= text@.skip(i as int));
            assert(rest@ =~= text@.take(i as int));
            return if reads_space(end) {
                rest
            } else {
                text
            };
        }
    }
    text
}

/// The text of the type of what a pointer points to whose type has the text `text`.
pub fn read_pointee(text: &str) -> (r: &str)
    ensures
        r@ == pointee_text(text@),
{
    if ends_with_star(text) {
        let before = text.substring_char(0, text.unicode_len() - 1);
        assert(before@ =~= text@.drop_last());
        cut_space(before)
    } else {
        let nothing = text.substring_char(0, 0);
        assert(nothing@ =~= Seq::empty());
        nothing
    }
}

/// Whether `text` from `start` to `end` can stand for a parameter.
fn reads_parameter(text: &str, start: usize, end: usize) -> (r: bool)
    requires
        end <= text@.len(),
    ensures
        r == parameter_known(parameter_part(text@, start as int, end as int)),
{
    if start >= end {
        assert(part(text@, start as int, end as int) =~= Seq::empty());
        return true;
    }
    let from: usize = if text.get_char(start) == ' ' {
        start + 1
    } else {
        start
    };
    let parameter = text.substring_char(from, end);
    let nothing = parameter.unicode_len() == 0;
    let none: Vec<String> = Vec::new();
    assert(texts(none@) =~= Seq::empty());
    nothing || same_text(parameter, "...") || read_type(&none, parameter) != BasicType::Unknown
}

/// What is read of the type of a function.
pub struct FunctionText {
    /// Whether values are handled of the types of all parameters.
    pub known: bool,
    /// The type of the result, if there is one.
    pub result: Option<BasicType>,
}

/// Reads the type of a function.
pub fn read_function(types: &Vec<String>, text: &str) -> (r: FunctionText)
    ensures
        r.known == parameters_known(text@),
        r.result == result_type_of(texts(types@), text@),
{
    let n: usize = text.unicode_len();
    let mut depth: usize = 0;
    let mut quoted: bool = false;
    let mut listed: bool = false;
    let mut head: usize = 0;
    let mut start: usize = 0;
    let mut known: bool = false;
    for i in 0..n
        invariant
            n == text@.len(),
            depth <= i,
            head <= i,
            start <= i,
            read(text@, i as nat) == (Reading {
                depth: depth as nat,
                quoted,
                listed,
                head: head as int,
                start: start as int,
                known,
            }),
    {
        let c: char = text.get_char(i);
        let opening = c == '(' || c == '[' || c == '{' || c == '<';
        let closing = c == ')' || c == ']' || c == '}' || c == '>';
        if c == '"' {
            quoted = !quoted;
        } else if quoted {
        } else if opening && depth == 0 {
            depth = 1;
            listed = c == '(';
            head = i;
            start = i + 1;
            known = true;
        } else if opening {
            depth = depth + 1;
        } else if closing && depth == 1 {
            known = known && reads_parameter(text, start, i);
            depth = 0;
        } else if closing && depth > 1 {
            depth = depth - 1;
        } else if c == ',' && depth == 1 {
            known = known && reads_parameter(text, start, i);
            start = i + 1;
        }
    }
    let end: usize = if head > 0 {
        head - 1
    } else {
        0
    };
    let result = text.substring_char(0, end);
    assert(result@ =~= part(text@, 0, read(text@, text@.len()).head - 1));
    FunctionText {
        known: depth == 0 && listed && known,
        result: if same_text(result, "void") {
            None
        } else {
            Some(read_type(types, result))
        },
    }
}

/// Pointers of listed types are told apart exactly: those of one target have one type.
pub proof fn listed_types_differ(listed: Seq<Seq<char>>, one: Seq<char>, other: Seq<char>)
    requires
        listed.len() <= usize::MAX,
        target_type(listed, one) is Listed,
        target_type(listed, other) == target_type(listed, one),
    ensures
        one == other,
{
    lemma_found(listed, one, listed.len());
    lemma_found(listed, other, listed.len());
}

/// What was found stands where it was found.
proof fn lemma_found(listed: Seq<Seq<char>>, text: Seq<char>, n: nat)
    requires
        n <= listed.len(),
    ensures
        position(listed, text, n) matches Some(i) ==> i < n && listed[i as int] == text,
    decreases n,
{
    if n > 0 {
        lemma_found(listed, text, (n - 1) as nat);
    }
}

/// Listing one more type leaves what was told by those before, and tells the pointers of that type
/// apart.
pub proof fn listing_adds(listed: Seq<Seq<char>>, added: Seq<char>, text: Seq<char>)
    ensures
        !(target_type(listed, text) is Unlisted) ==> target_type(listed_with(listed, added), text)
            == target_type(listed, text),
        added.len() > 0 && added.last() == '*' && !unnamed(added) ==> !(target_type(
            listed_with(listed, added),
            added,
        ) is Unlisted),
{
    let more = listed_with(listed, added);
    if more != listed {
        lemma_same_position(listed, added, text, listed.len());
        lemma_same_position(listed, added, added, listed.len());
        if position(listed, text, listed.len()) is Some {
            lemma_position(more, text, listed.len(), more.len());
        }
        assert(more[listed.len() as int] == added);
    }
}

/// What stands among the first `n` does not depend on what comes after.
proof fn lemma_same_position(listed: Seq<Seq<char>>, added: Seq<char>, text: Seq<char>, n: nat)
    requires
        n <= listed.len(),
    ensures
        position(listed.push(added), text, n) == position(listed, text, n),
    decreases n,
{
    if n > 0 {
        lemma_same_position(listed, added, text, (n - 1) as nat);
    }
}

/// One more digit makes a number ten times as large, and adds the digit.
pub(crate) proof fn lemma_decimal_push(text: Seq<char>, c: char)
    ensures
        decimal(text.push(c), text.len() + 1) == 10 * decimal(text, text.len()) + digit(c),
{
    lemma_decimal_prefix(text, c, text.len());
}

/// What comes after does not matter.
proof fn lemma_decimal_prefix(text: Seq<char>, c: char, n: nat)
    requires
        n <= text.len(),
    ensures
        decimal(text.push(c), n) == decimal(text, n),
    decreases n,
{
    if n > 0 {
        lemma_decimal_prefix(text, c, (n - 1) as nat);
    }
}

} // verus!
