//! That types are read back from their texts as LLVM writes them.
use crate::ir::{signatures, slot_of, Declared};
use crate::type_text::{
    basic_type, is_space, last_space, parameter_known, parameter_part, parameters_known, part,
    pointee_text, position, read, read_on, result_type_of, unnamed, Reading,
};
use crate::value::{BasicType, Precision, Target};
use inkwell::values::PointerValue;
use vstd::prelude::*;

verus! {

/// Whether `c` is a decimal digit that stands for `d`.
pub open spec fn digit_is(c: char, d: int) -> bool {
    0 <= d <= 9 && c as int == '0' as int + d
}

/// Whether `c` is a decimal digit.
pub open spec fn is_digit(c: char) -> bool {
    '0' as int <= c as int <= '9' as int
}

/// The type of integers is written as an `i` and the width in decimal digits, and read back digit
/// by digit. The width is at least 1 and at most 2^23. Nothing but digits is a width.
pub proof fn integer_type_read(listed: Seq<Seq<char>>, text: Seq<char>, width: u32, c: char, d: int)
    requires
        text.len() > 0,
        text[0] == 'i',
    ensures
        text.len() == 1 && digit_is(c, d) && d > 0 ==> basic_type(listed, text.push(c))
            == (BasicType::Int { width: d as u32 }),
        text.len() == 1 && digit_is(c, 0) ==> basic_type(listed, text.push(c)) is Unknown,
        text.len() == 1 ==> basic_type(listed, text) is Unknown,
        basic_type(listed, text) == (BasicType::Int { width }) ==> {
            &&& 1 <= width <= 0x80_0000
            &&& text.len() < 8 && digit_is(c, d) && 10 * width + d <= 0x80_0000 ==> basic_type(
                listed,
                text.push(c),
            ) == (BasicType::Int { width: (10 * width + d) as u32 })
            &&& digit_is(c, d) && 10 * width + d > 0x80_0000 ==> basic_type(listed, text.push(c))
                is Unknown
        },
        !is_digit(c) ==> !(basic_type(listed, text.push(c)) is Int),
{
    let more = text.push(c);
    lemma_no_float(text);
    lemma_no_float(more);
    assert(more.skip(1) =~= text.skip(1).push(c));
    let (short, long) = (text.skip(1), more.skip(1));
    crate::type_text::lemma_decimal_push(short, c);
    if basic_type(listed, more) is Int {
        assert(0 <= crate::type_text::digit(long[long.len() - 1]) <= 9);
        assert(digit_is(c, c as int - '0' as int));
    }
    if crate::type_text::all_digits(short) && digit_is(c, d) {
        assert forall|i: int| 0 <= i < long.len() implies 0 <= crate::type_text::digit(
            #[trigger] long[i],
        ) <= 9 by {
            if i < short.len() {
                assert(long[i] == short[i]);
            }
        }
    }
}

/// A text that starts with an `i` is that of no floating point type.
proof fn lemma_no_float(text: Seq<char>)
    requires
        text.len() > 0,
        text[0] == 'i',
    ensures
        crate::type_text::float_type(text) is None,
{
    reveal_strlit("half");
    reveal_strlit("float");
    reveal_strlit("double");
    reveal_strlit("x86_fp80");
    reveal_strlit("fp128");
    reveal_strlit("ppc_fp128");
}

/// The types of floating point numbers are read by their names. There are values of no others.
pub proof fn float_types_read(listed: Seq<Seq<char>>)
    ensures
        basic_type(listed, "half"@) == (BasicType::Float { precision: Precision::Half }),
        basic_type(listed, "float"@) == (BasicType::Float { precision: Precision::Single }),
        basic_type(listed, "double"@) == (BasicType::Float { precision: Precision::Double }),
        basic_type(listed, "x86_fp80"@) == (BasicType::Float { precision: Precision::Extended }),
        basic_type(listed, "fp128"@) == (BasicType::Float { precision: Precision::Quadruple }),
        basic_type(listed, "ppc_fp128"@) == (BasicType::Float {
            precision: Precision::PairedDouble,
        }),
        basic_type(listed, "bfloat"@) is Unknown,
        basic_type(listed, "void"@) is Unknown,
        basic_type(listed, "metadata"@) is Unknown,
        basic_type(listed, "ptr"@) is Unknown,
        basic_type(listed, ""@) is Unknown,
{
    reveal_strlit("half");
    reveal_strlit("float");
    reveal_strlit("double");
    reveal_strlit("x86_fp80");
    reveal_strlit("fp128");
    reveal_strlit("ppc_fp128");
    reveal_strlit("bfloat");
    reveal_strlit("void");
    reveal_strlit("metadata");
    reveal_strlit("ptr");
    reveal_strlit("");
    assert("half"@ != "float"@ && "half"@.len() == 4);
    assert("fp128"@[0] != "float"@[0] || "fp128"@[1] != "float"@[1]);
}

/// Arrays are written in square brackets, structs in braces, also packed ones, or by a name, and
/// vectors in angle brackets, whatever stands there. An array is sized if no named struct stands in
/// it. Vectors whose length the processor tells, and functions, are not handled.
pub proof fn compound_types_read(listed: Seq<Seq<char>>, inner: Seq<char>)
    ensures
        basic_type(listed, seq!['['] + inner + seq![']']) == (BasicType::Array {
            sized: forall|i: int| 0 <= i < inner.len() ==> inner[i] != '%',
        }),
        basic_type(listed, seq!['{'] + inner + seq!['}']) is Struct,
        basic_type(listed, seq!['<', '{'] + inner + seq!['}', '>']) is Struct,
        basic_type(listed, seq!['<', 'v'] + inner + seq!['>']) is Unknown,
        inner.len() > 0 && inner[0] != '{' && inner[0] != 'v' ==> basic_type(
            listed,
            seq!['<'] + inner + seq!['>'],
        ) is Vector,
        basic_type(listed, inner + seq![')']) is Unknown,
        inner.len() == 0 || (inner.last() != '*' && inner.last() != ')') ==> basic_type(
            listed,
            seq!['%'] + inner,
        ) is Struct,
{
    let array = seq!['['] + inner + seq![']'];
    assert(array[0] == '[' && array.last() == ']');
    if array.contains('%') {
        let k = choose|k: int| 0 <= k < array.len() && array[k] == '%';
        assert(inner[k - 1] == '%');
    } else {
        assert forall|i: int| 0 <= i < inner.len() implies inner[i] != '%' by {
            assert(array[i + 1] == inner[i]);
            assert(array.contains(array[i + 1]));
        }
    }
    let record = seq!['{'] + inner + seq!['}'];
    assert(record[0] == '{' && record.last() == '}');
    let packed = seq!['<', '{'] + inner + seq!['}', '>'];
    assert(packed[0] == '<' && packed[1] == '{' && packed.last() == '>');
    let scalable = seq!['<', 'v'] + inner + seq!['>'];
    assert(scalable[0] == '<' && scalable[1] == 'v' && scalable.last() == '>');
    let vector = seq!['<'] + inner + seq!['>'];
    assert(vector[0] == '<' && vector.last() == '>');
    if inner.len() > 0 {
        assert(vector[1] == inner[0]);
    }
    let function = inner + seq![')'];
    assert(function.last() == ')');
    let named = seq!['%'] + inner;
    assert(named[0] == '%');
    if inner.len() > 0 {
        assert(named.last() == inner.last());
    }
}

/// A star after the type of numbers is that of a pointer to such a number. A star after anything
/// else is that of a pointer which is told apart by its place among the listed types: the first
/// where its very text stands. If it stands nowhere there, it is not told apart.
pub proof fn pointer_type_read(listed: Seq<Seq<char>>, text: Seq<char>, i: nat)
    requires
        listed.len() <= usize::MAX,
    ensures
        ({
            let star = text.push('*');
            let read = basic_type(listed, star);
            let number = basic_type(listed, text);
            &&& number matches BasicType::Int { width } ==> read == (BasicType::Pointer {
                target: Target::Int { width },
            })
            &&& number matches BasicType::Float { precision } ==> read == (BasicType::Pointer {
                target: Target::Float { precision },
            })
            &&& !(number is Int) && !(number is Float) ==> {
                &&& unnamed(star) || !listed.contains(star) ==> read == (BasicType::Pointer {
                    target: Target::Unlisted,
                })
                &&& !unnamed(star) && i < listed.len() && listed[i as int] == star && (forall|
                    j: int,
                |
                    0 <= j < i ==> #[trigger] listed[j] != star) ==> read == (
                BasicType::Pointer { target: Target::Listed { number: i as usize } })
            }
        }),
{
    let star = text.push('*');
    assert(star.drop_last() =~= text);
    reveal_strlit("half");
    reveal_strlit("float");
    reveal_strlit("double");
    reveal_strlit("x86_fp80");
    reveal_strlit("fp128");
    reveal_strlit("ppc_fp128");
    let number = crate::type_text::number_type(text);
    if number is Int {
        let width = text.skip(1);
        assert(0 <= crate::type_text::digit(width[width.len() - 1]) <= 9);
        assert(text.last() == width[width.len() - 1]);
    }
    assert(number is Int || number is Float ==> basic_type(listed, text) == number);
    lemma_first(listed, star, listed.len());
    if let Some(k) = position(listed, star, listed.len()) {
        assert(listed.contains(star));
        if i < listed.len() && listed[i as int] == star && (forall|j: int|
            0 <= j < i ==> #[trigger] listed[j] != star) {
            assert(k == i);
        }
    }
}

/// What `position` finds is the first, and it finds what is there.
proof fn lemma_first(listed: Seq<Seq<char>>, text: Seq<char>, n: nat)
    requires
        n <= listed.len(),
    ensures
        match position(listed, text, n) {
            Some(k) => k < n && listed[k as int] == text && forall|j: int|
                0 <= j < k ==> #[trigger] listed[j] != text,
            None => forall|j: int| 0 <= j < n ==> #[trigger] listed[j] != text,
        },
    decreases n,
{
    if n > 0 {
        lemma_first(listed, text, (n - 1) as nat);
    }
}

/// A text holds the address of a struct without a name if and only if LLVM's mark of one stands in
/// it, after anything and before anything.
pub proof fn unnamed_by_mark(text: Seq<char>, before: Seq<char>, behind: Seq<char>)
    ensures
        unnamed(before + "%\"type 0x"@ + behind),
        unnamed(text) ==> exists|first: Seq<char>, last: Seq<char>|
            #![trigger first + "%\"type 0x"@ + last]
            text == first + "%\"type 0x"@ + last,
{
    let mark = "%\"type 0x"@;
    let whole = before + mark + behind;
    assert(mark =~= whole.skip(before.len() as int).take(mark.len() as int));
    assert(mark.is_prefix_of(whole.skip(before.len() as int)));
    if unnamed(text) {
        let i = choose|i: int|
            0 <= i <= text.len() && mark.is_prefix_of(#[trigger] text.skip(i));
        let first = text.take(i);
        let last = text.skip(i + mark.len());
        assert(text =~= first + mark + last) by {
            assert forall|j: int| 0 <= j < mark.len() implies mark[j] == text[i + j] by {
                assert(mark[j] == text.skip(i).take(mark.len() as int)[j]);
            }
        }
    }
}

/// Whether an address space is written at the end of `text`.
pub open spec fn ends_with_space(text: Seq<char>) -> bool {
    exists|i: int| 0 <= i < text.len() && is_space(#[trigger] text.skip(i))
}

/// An address space is a word, a space before it, and a number in parentheses.
pub proof fn space_written(text: Seq<char>)
    ensures
        is_space(text) ==> exists|digits: Seq<char>|
            #![trigger " addrspace("@ + digits + ")"@]
            text == " addrspace("@ + digits + ")"@ && forall|i: int|
                0 <= i < digits.len() ==> is_digit(#[trigger] digits[i]),
{
    if is_space(text) {
        reveal_strlit(" addrspace(");
        reveal_strlit(")");
        assert(text.len() > 11) by {
            assert(" addrspace("@ =~= text.take(11));
            assert(text[10] == text.take(11)[10]);
        }
        let digits = text.subrange(11, text.len() - 1);
        assert(text =~= " addrspace("@ + digits + ")"@) by {
            assert forall|j: int| 0 <= j < 11 implies text[j] == " addrspace("@[j] by {
                assert(text[j] == text.take(11)[j]);
            }
        }
        assert forall|i: int| 0 <= i < digits.len() implies is_digit(#[trigger] digits[i]) by {
            assert(0 <= crate::type_text::digit(text[i + 11]) <= 9);
        }
    }
}

/// What a pointer points to is written before its star, and before its address space if it has one.
/// What has no star at its end is no pointer.
pub proof fn pointee_read(text: Seq<char>, digits: Seq<char>)
    ensures
        !ends_with_space(text) ==> pointee_text(text.push('*')) == text,
        (forall|i: int| 0 <= i < digits.len() ==> is_digit(#[trigger] digits[i]))
            ==> pointee_text(text + " addrspace("@ + digits + seq![')', '*']) == text,
        text.len() == 0 || text.last() != '*' ==> pointee_text(text) == Seq::<char>::empty(),
        text.len() > 0 && text.last() != ')' ==> !ends_with_space(text),
{
    assert(text.push('*').drop_last() =~= text);
    lemma_last_space(text, text.len());
    if text.len() > 0 && text.last() != ')' && ends_with_space(text) {
        let i = choose|i: int| 0 <= i < text.len() && is_space(#[trigger] text.skip(i));
        assert(text.skip(i).last() == text.last());
    }
    if forall|i: int| 0 <= i < digits.len() ==> is_digit(#[trigger] digits[i]) {
        reveal_strlit(" addrspace(");
        let space = " addrspace("@ + digits + seq![')'];
        let whole = text + " addrspace("@ + digits + seq![')', '*'];
        let before = text + space;
        assert(whole.drop_last() =~= before);
        assert(before.skip(text.len() as int) =~= space);
        assert forall|j: int| text.len() < j < before.len() implies before[j] != ' ' by {
            let k = j - text.len() - 11;
            if 0 <= k < digits.len() {
                assert(before[j] == digits[k]);
                assert(is_digit(digits[k]));
            }
        }
        assert(is_space(space)) by {
            assert(" addrspace("@ =~= space.take(11));
            assert forall|j: int| 11 <= j < space.len() - 1 implies 0 <= crate::type_text::digit(
                #[trigger] space[j],
            ) <= 9 by {
                assert(space[j] == digits[j - 11]);
                assert(is_digit(digits[j - 11]));
            }
        }
        assert(before[text.len() as int] == ' ');
        lemma_last_space_at(before, before.len(), text.len());
        assert(before.take(text.len() as int) =~= text);
    }
}

/// Where the last space stands.
proof fn lemma_last_space(text: Seq<char>, n: nat)
    requires
        n <= text.len(),
    ensures
        last_space(text, n) matches Some(i) ==> 0 <= i < n && text[i] == ' ',
    decreases n,
{
    if n > 0 {
        lemma_last_space(text, (n - 1) as nat);
    }
}

/// A space after which there is no other is the last.
proof fn lemma_last_space_at(text: Seq<char>, n: nat, i: nat)
    requires
        i < n <= text.len(),
        text[i as int] == ' ',
        forall|j: int| i < j < n ==> text[j] != ' ',
    ensures
        last_space(text, n) == Some(i as int),
    decreases n,
{
    if i + 1 < n {
        lemma_last_space_at(text, (n - 1) as nat, i);
    }
}

/// A function has a parameter for each text of one, in order, of the type that the text tells, and
/// the result that its own text tells. All functions are known by their names.
pub proof fn signatures_by_texts(
    listed: Seq<Seq<char>>,
    declared: Map<Seq<char>, Declared>,
    name: Seq<char>,
    i: int,
)
    ensures
        signatures(listed, declared).contains_key(name) == declared.contains_key(name),
        declared.contains_key(name) ==> {
            let signature = signatures(listed, declared)[name];
            let function = declared[name];
            &&& signature.params.len() == function.params.len()
            &&& 0 <= i < function.params.len() ==> signature.params[i] == basic_type(
                listed,
                function.params[i],
            )
            &&& signature.result == result_type_of(listed, function.text)
            &&& signature.known == parameters_known(function.text)
        },
{
}

/// A place has the number of its step. It is reached by a pointer of the type that the pointer's
/// text tells, and holds what the text says that the pointer points to.
pub proof fn place_by_text(id: usize, listed: Seq<Seq<char>>, pointer: PointerValue<'_>)
    requires
        crate::ir::pointer_text(pointer).len() > 0,
        crate::ir::pointer_text(pointer).last() == '*',
    ensures
        ({
            let text = crate::ir::pointer_text(pointer);
            let slot = slot_of(id, listed, pointer);
            &&& slot.pointer.id == id
            &&& basic_type(listed, text) == (BasicType::Pointer { target: slot.pointer.target })
            &&& slot.pointee == basic_type(listed, pointee_text(text))
        }),
{
}

/// How deep the first `n` characters of `text` lead into brackets, and whether into a quoted name.
/// They lead nowhere if a bracket closes that was not opened, or a comma stands in none.
pub open spec fn nesting(text: Seq<char>, n: nat) -> Option<(nat, bool)>
    decreases n,
{
    if n == 0 || n > text.len() {
        Some((0, false))
    } else {
        let c = text[n - 1];
        match nesting(text, (n - 1) as nat) {
            Some((depth, quoted)) => if c == '"' {
                Some((depth, !quoted))
            } else if quoted {
                Some((depth, quoted))
            } else if c == '(' || c == '[' || c == '{' || c == '<' {
                Some((depth + 1, quoted))
            } else if c == ')' || c == ']' || c == '}' || c == '>' {
                if depth == 0 {
                    None
                } else {
                    Some(((depth - 1) as nat, quoted))
                }
            } else if c == ',' && depth == 0 {
                None
            } else {
                Some((depth, quoted))
            },
            None => None,
        }
    }
}

/// Whether `text` is written like a type: brackets and quotes close that were opened, and commas
/// stand in brackets only.
pub open spec fn complete(text: Seq<char>) -> bool {
    nesting(text, text.len()) == Some((0nat, false))
}

/// Some texts, with a comma and a space between.
pub open spec fn with_commas(texts: Seq<Seq<char>>) -> Seq<char>
    decreases texts.len(),
{
    if texts.len() == 0 {
        Seq::empty()
    } else if texts.len() == 1 {
        texts[0]
    } else {
        with_commas(texts.drop_last()) + ", "@ + texts.last()
    }
}

/// The text of a function's type: that of its result, and those of its parameters in parentheses.
pub open spec fn function_text(result: Seq<char>, params: Seq<Seq<char>>) -> Seq<char> {
    result + " ("@ + with_commas(params) + ")"@
}

/// Reading goes through a complete text and comes out at the same depth. Within brackets it comes
/// out as it went in.
proof fn lemma_read_through(text: Seq<char>, from: nat, inner: Seq<char>, n: nat)
    requires
        from + inner.len() <= text.len(),
        inner == text.subrange(from as int, (from + inner.len()) as int),
        n <= inner.len(),
        nesting(inner, n) is Some,
        !read(text, from).quoted,
    ensures
        ({
            let before = read(text, from);
            let after = read(text, from + n);
            let (depth, quoted) = nesting(inner, n)->0;
            &&& after.depth == before.depth + depth
            &&& after.quoted == quoted
            &&& before.depth > 0 ==> after == (Reading {
                depth: before.depth + depth,
                quoted,
                ..before
            })
        }),
    decreases n,
{
    if n > 0 {
        lemma_read_through(text, from, inner, (n - 1) as nat);
        assert(inner[n - 1] == text[from + n - 1]);
    }
}

/// The types of all parameters are handled, among the first `n`.
pub open spec fn handled(params: Seq<Seq<char>>, n: nat) -> bool {
    forall|i: int|
        0 <= i < n ==> #[trigger] params[i] == "..."@ || !(basic_type(Seq::empty(), params[i])
            is Unknown)
}

/// How far reading has come after some parameters, the last of which is not yet counted.
#[verifier::rlimit(40)]
proof fn lemma_read_params(text: Seq<char>, head: nat, params: Seq<Seq<char>>, n: nat)
    requires
        0 < n <= params.len(),
        head + 1 + with_commas(params.take(n as int)).len() <= text.len(),
        with_commas(params.take(n as int)) == text.subrange(
            (head + 1) as int,
            (head + 1 + with_commas(params.take(n as int)).len()) as int,
        ),
        forall|i: int|
            0 <= i < params.len() ==> complete(#[trigger] params[i]) && params[i].len() > 0
                && params[i][0] != ' ',
        read(text, head + 1) == (Reading {
            depth: 1,
            quoted: false,
            listed: true,
            head: head as int,
            start: (head + 1) as int,
            known: true,
        }),
    ensures
        ({
            let end = head + 1 + with_commas(params.take(n as int)).len();
            let after = read(text, end);
            &&& after.depth == 1 && !after.quoted && after.listed && after.head == head
            &&& head < after.start < end
            &&& parameter_part(text, after.start, end as int) == params[n - 1]
            &&& after.known == handled(params, (n - 1) as nat)
        }),
    decreases n,
{
    let some = params.take(n as int);
    let all = with_commas(some);
    let end = head + 1 + all.len();
    let last = params[n - 1];
    if n == 1 {
        assert(all == last);
        lemma_read_through(text, head + 1, last, last.len());
        assert(text[(head + 1) as int] == all[0]);
        assert(text.subrange((head + 1) as int, end as int) =~= last);
    } else {
        let k = (n - 1) as nat;
        let fewer = with_commas(params.take(k as int));
        reveal_strlit(", ");
        assert(some.drop_last() =~= params.take(k as int));
        assert(all == fewer + ", "@ + last);
        let middle = head + 1 + fewer.len();
        assert(fewer =~= text.subrange((head + 1) as int, middle as int)) by {
            assert forall|j: int| 0 <= j < fewer.len() implies fewer[j] == text[head + 1 + j] by {
                assert(all[j] == text.subrange((head + 1) as int, end as int)[j]);
            }
        }
        lemma_read_params(text, head, params, k);
        let before = read(text, middle);
        assert(text[middle as int] == all[fewer.len() as int]);
        assert(text[(middle + 1) as int] == all[(fewer.len() + 1) as int]);
        let comma = read(text, middle + 1);
        assert(comma == read_on(before, text, middle as int));
        assert(read(text, middle + 2) == read_on(comma, text, (middle + 1) as int));
        assert(last =~= text.subrange((middle + 2) as int, end as int)) by {
            assert forall|j: int| 0 <= j < last.len() implies last[j] == text[middle + 2 + j] by {
                let k = fewer.len() + 2 + j;
                assert(all[k] == text.subrange((head + 1) as int, end as int)[k]);
            }
        }
        lemma_read_through(text, middle + 2, last, last.len());
        assert(text[(middle + 1) as int] == ' ');
        assert(parameter_part(text, (middle + 1) as int, end as int) == last);
        lemma_parameter_known(params[k - 1]);
        assert(handled(params, k) == (handled(params, (k - 1) as nat) && parameter_known(
            params[k - 1],
        )));
    }
}

/// Which texts can stand for a parameter.
proof fn lemma_parameter_known(text: Seq<char>)
    requires
        text.len() > 0,
    ensures
        parameter_known(text) == (text == "..."@ || !(basic_type(Seq::empty(), text)
            is Unknown)),
{
}

/// The text of a function's type is read back: the result is what its text tells, none if that is
/// `void`, and the parameters are known if and only if values are handled of the types of all of
/// them, or the dots for further ones stand there.
#[verifier::rlimit(40)]
pub proof fn function_type_read(
    listed: Seq<Seq<char>>,
    result: Seq<char>,
    params: Seq<Seq<char>>,
)
    requires
        complete(result),
        forall|i: int|
            0 <= i < params.len() ==> complete(#[trigger] params[i]) && params[i].len() > 0
                && params[i][0] != ' ',
    ensures
        ({
            let text = function_text(result, params);
            &&& result_type_of(listed, text) == (if result == "void"@ {
                None
            } else {
                Some(basic_type(listed, result))
            })
            &&& parameters_known(text) == handled(params, params.len())
        }),
{
    let text = function_text(result, params);
    let n = params.len();
    let all = with_commas(params);
    let head = result.len() + 1;
    let end = head + 1 + all.len();
    lemma_function_text(result, params);
    lemma_read_head(text, result);
    assert(params.take(n as int) =~= params);
    if n > 0 {
        lemma_read_params(text, head, params, n);
        lemma_parameter_known(params[n - 1]);
        assert(handled(params, n) == (handled(params, (n - 1) as nat) && parameter_known(
            params[n - 1],
        )));
    } else {
        assert(parameter_part(text, (head + 1) as int, end as int) =~= Seq::empty());
        assert(handled(params, 0));
    }
    lemma_read_end(text, end);
    assert(part(text, 0, head - 1) =~= result);
}

/// Where the parts of the text of a function's type stand.
proof fn lemma_function_text(result: Seq<char>, params: Seq<Seq<char>>)
    ensures
        ({
            let text = function_text(result, params);
            let all = with_commas(params);
            let head = result.len() + 1;
            let end = head + 1 + all.len();
            &&& text.len() == end + 1
            &&& result == text.subrange(0, result.len() as int)
            &&& text[result.len() as int] == ' '
            &&& text[head as int] == '('
            &&& all == text.subrange((head + 1) as int, end as int)
            &&& text[end as int] == ')'
        }),
{
    reveal_strlit(" (");
    reveal_strlit(")");
    let text = function_text(result, params);
    let all = with_commas(params);
    let head = result.len() + 1;
    let end = head + 1 + all.len();
    assert(result =~= text.subrange(0, result.len() as int));
    assert(all =~= text.subrange((head + 1) as int, end as int));
}

/// Reading starts anew at the parentheses of the parameters.
proof fn lemma_read_head(text: Seq<char>, result: Seq<char>)
    requires
        complete(result),
        result.len() + 2 <= text.len(),
        result == text.subrange(0, result.len() as int),
        text[result.len() as int] == ' ',
        text[(result.len() + 1) as int] == '(',
    ensures
        read(text, result.len() + 2) == (Reading {
            depth: 1,
            quoted: false,
            listed: true,
            head: (result.len() + 1) as int,
            start: (result.len() + 2) as int,
            known: true,
        }),
{
    let n = result.len();
    lemma_read_through(text, 0, result, n);
    assert(read(text, n + 1) == read_on(read(text, n), text, n as int));
    assert(read(text, n + 2) == read_on(read(text, n + 1), text, (n + 1) as int));
}

/// Reading ends with the parameters.
proof fn lemma_read_end(text: Seq<char>, end: nat)
    requires
        text.len() == end + 1,
        text[end as int] == ')',
        read(text, end).depth == 1,
        !read(text, end).quoted,
    ensures
        ({
            let before = read(text, end);
            read(text, text.len()) == (Reading {
                depth: 0,
                known: before.known && parameter_known(
                    parameter_part(text, before.start, end as int),
                ),
                ..before
            })
        }),
{
    assert(read(text, text.len()) == read_on(read(text, end), text, end as int));
}

} // verus!
