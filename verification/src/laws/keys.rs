//! The bytes of every key, and what the key syntax stands for, spelled out.
use vstd::prelude::*;
use vstd::utf8::encode_utf8;
use crate::duration::duration;
use crate::keys::{
    all_modifiers, arg_groups, args_groups, char_key, decimal_bytes, escaped, glue, is_modifier,
    key_bytes, key_expression, law_escaped_text_is_literal, lemma_glue_associative,
    lemma_glue_nothing, lemma_modifier_first, lemma_reads_modifiers, modifiers, named_key,
    read_key, shown_arg, token, KeyGroupView,
};
use crate::strings::{lemma_position, lemma_utf8_concat, position};

verus! {

// === Modifiers ===

/// The text of modifiers: `c-` for Ctrl, `s-` for Shift and `a-` for Alt.
pub open spec fn prefix_of(ctrl: bool, shift: bool, alt: bool) -> Seq<char> {
    (if ctrl {
        seq!['c', '-']
    } else {
        Seq::empty()
    }) + (if shift {
        seq!['s', '-']
    } else {
        Seq::empty()
    }) + (if alt {
        seq!['a', '-']
    } else {
        Seq::empty()
    })
}

/// The digit that stands for modifiers in a sequence.
pub open spec fn modifier_digit(ctrl: bool, shift: bool, alt: bool) -> u8 {
    if !ctrl && shift && !alt {
        0x32
    } else if !ctrl && !shift && alt {
        0x33
    } else if !ctrl && shift && alt {
        0x34
    } else if ctrl && !shift && !alt {
        0x35
    } else if ctrl && shift && !alt {
        0x36
    } else if ctrl && !shift && alt {
        0x37
    } else {
        0x38
    }
}

pub open spec fn sends(expr: Seq<char>, bytes: Seq<u8>) -> bool {
    key_expression(expr) == Ok::<KeyGroupView, Seq<char>>(KeyGroupView::Bytes(bytes))
}

/// Whether a key is `ESC [ X` alone and `ESC [ 1 ; m X` with modifiers.
pub open spec fn is_letter_key(name: Seq<char>, letter: u8) -> bool {
    &&& sends(name, seq![0x1b, 0x5b, letter])
    &&& forall|ctrl: bool, shift: bool, alt: bool|
        ctrl || shift || alt ==> sends(
            #[trigger] prefix_of(ctrl, shift, alt) + name,
            seq![0x1b, 0x5b, 0x31, 0x3b, modifier_digit(ctrl, shift, alt), letter],
        )
}

/// Whether a key is `ESC O X` alone and `ESC [ 1 ; m X` with modifiers.
pub open spec fn is_ss3_key(name: Seq<char>, letter: u8) -> bool {
    &&& sends(name, seq![0x1b, 0x4f, letter])
    &&& forall|ctrl: bool, shift: bool, alt: bool|
        ctrl || shift || alt ==> sends(
            #[trigger] prefix_of(ctrl, shift, alt) + name,
            seq![0x1b, 0x5b, 0x31, 0x3b, modifier_digit(ctrl, shift, alt), letter],
        )
}

/// Whether a key is `ESC [ N ~` alone and `ESC [ N ; m ~` with modifiers.
pub open spec fn is_tilde_key(name: Seq<char>, number: Seq<u8>) -> bool {
    &&& sends(name, seq![0x1bu8, 0x5b] + number + seq![0x7eu8])
    &&& forall|ctrl: bool, shift: bool, alt: bool|
        ctrl || shift || alt ==> sends(
            #[trigger] prefix_of(ctrl, shift, alt) + name,
            seq![0x1bu8, 0x5b] + number + seq![
                0x3bu8,
                modifier_digit(ctrl, shift, alt),
                0x7e,
            ],
        )
}

/// Whether a key is one byte, with ESC in front where Alt is held, and else whatever the other
/// modifiers.
pub open spec fn is_byte_key(name: Seq<char>, byte: u8) -> bool {
    forall|ctrl: bool, shift: bool, alt: bool|
        sends(
            #[trigger] prefix_of(ctrl, shift, alt) + name,
            if alt {
                seq![0x1b, byte]
            } else {
                seq![byte]
            },
        )
}

// === Reading modifiers ===

spec fn modifier_list(ctrl: bool, shift: bool, alt: bool) -> Seq<Seq<char>> {
    (if ctrl {
        seq!["c-"@]
    } else {
        Seq::empty()
    }) + (if shift {
        seq!["s-"@]
    } else {
        Seq::empty()
    }) + (if alt {
        seq!["a-"@]
    } else {
        Seq::empty()
    })
}

/// A name with modifiers in front is read as the key of that name with these modifiers.
proof fn lemma_modified(ctrl: bool, shift: bool, alt: bool, name: Seq<char>)
    requires
        name.len() > 0,
        name.len() > 1 ==> name[1] != '-',
        name != "stdin"@,
        name != "sleep"@,
        name != "wait"@,
        name.len() > 4 ==> name[4] != ':',
        name.len() > 5 ==> name[5] != ':',
    ensures
        match key_bytes(name, ctrl, shift, alt) {
            Ok(b) => sends(prefix_of(ctrl, shift, alt) + name, b),
            Err(e) => key_expression(prefix_of(ctrl, shift, alt) + name) == Err::<
                KeyGroupView,
                Seq<char>,
            >(e),
        },
{
    reveal_strlit("c-");
    reveal_strlit("s-");
    reveal_strlit("a-");
    reveal_strlit("stdin");
    reveal_strlit("sleep");
    reveal_strlit("wait");
    reveal_strlit("sleep:");
    reveal_strlit("wait:");
    assert("c-"@ =~= seq!['c', '-']);
    assert("s-"@ =~= seq!['s', '-']);
    assert("a-"@ =~= seq!['a', '-']);
    let list = modifier_list(ctrl, shift, alt);
    let expr = prefix_of(ctrl, shift, alt) + name;
    reveal_with_fuel(all_modifiers, 4);
    assert(all_modifiers(list) =~= prefix_of(ctrl, shift, alt)) by {
        lemma_all_modifiers(ctrl, shift, alt);
    }
    assert(expr =~= all_modifiers(list) + name);
    assert forall|i: int| 0 <= i < list.len() implies is_modifier(
        #[trigger] list[i],
    ) by {}
    lemma_reads_modifiers(expr, list, name, false, false, false);
    lemma_modifier_list(ctrl, shift, alt);
    assert(modifiers(expr, name, ctrl, shift, alt) == Ok::<
        (bool, bool, bool, Seq<char>),
        Seq<char>,
    >((ctrl, shift, alt, name))) by {
        assert(!"c-"@.is_prefix_of(name)) by {
            if "c-"@.is_prefix_of(name) {
                assert(name.subrange(0, 2)[1] == name[1]);
            }
        }
        assert(!"s-"@.is_prefix_of(name)) by {
            if "s-"@.is_prefix_of(name) {
                assert(name.subrange(0, 2)[1] == name[1]);
            }
        }
        assert(!"a-"@.is_prefix_of(name)) by {
            if "a-"@.is_prefix_of(name) {
                assert(name.subrange(0, 2)[1] == name[1]);
            }
        }
    }
    if ctrl || shift || alt {
        assert(expr[1] == '-');
    } else {
        assert(expr =~= name);
    }
    assert("sleep:"@[5] == ':');
    assert("wait:"@[4] == ':');
    assert("sleep:"@[1] == 'l');
    assert("wait:"@[1] == 'a');
    assert("stdin"@[1] == 't');
    assert("sleep"@[1] == 'l');
    assert("wait"@[1] == 'a');
    assert(!"sleep:"@.is_prefix_of(expr)) by {
        if "sleep:"@.is_prefix_of(expr) {
            assert(expr.subrange(0, 6)[1] == expr[1]);
            assert(expr.subrange(0, 6)[5] == expr[5]);
        }
    }
    assert(!"wait:"@.is_prefix_of(expr)) by {
        if "wait:"@.is_prefix_of(expr) {
            assert(expr.subrange(0, 5)[1] == expr[1]);
            assert(expr.subrange(0, 5)[4] == expr[4]);
        }
    }
    assert(key_expression(expr) == read_key(expr, expr));
}

proof fn lemma_all_modifiers(ctrl: bool, shift: bool, alt: bool)
    ensures
        all_modifiers(modifier_list(ctrl, shift, alt)) == prefix_of(ctrl, shift, alt),
{
    reveal_strlit("c-");
    reveal_strlit("s-");
    reveal_strlit("a-");
    assert("c-"@ =~= seq!['c', '-']);
    assert("s-"@ =~= seq!['s', '-']);
    assert("a-"@ =~= seq!['a', '-']);
    let none = Seq::<Seq<char>>::empty();
    let list = modifier_list(ctrl, shift, alt);
    let three = list;
    let two = three.skip(1);
    let one = two.skip(1);
    reveal_with_fuel(all_modifiers, 4);
    if three.len() == 3 {
        assert(one.skip(1) =~= none);
    } else if three.len() == 2 {
        assert(one =~= none);
    } else if three.len() == 1 {
        assert(two =~= none);
    } else {
        assert(three =~= none);
    }
    assert(all_modifiers(list) =~= prefix_of(ctrl, shift, alt));
}

proof fn lemma_modifier_list(ctrl: bool, shift: bool, alt: bool)
    ensures
        ({
            let list = modifier_list(ctrl, shift, alt);
            &&& list.no_duplicates()
            &&& list.contains("c-"@) == ctrl
            &&& list.contains("s-"@) == shift
            &&& list.contains("a-"@) == alt
        }),
{
    let list = modifier_list(ctrl, shift, alt);
    lemma_modifier_first("c-"@, Seq::empty());
    if ctrl {
        assert(list[0] == "c-"@);
    }
    if shift {
        assert(list[if ctrl {
            1int
        } else {
            0
        }] == "s-"@);
    }
    if alt {
        assert(list[list.len() - 1] == "a-"@);
    }
}

spec fn letter_bytes(ctrl: bool, shift: bool, alt: bool, letter: u8) -> Seq<u8> {
    if ctrl || shift || alt {
        seq![0x1b, 0x5b, 0x31, 0x3b, modifier_digit(ctrl, shift, alt), letter]
    } else {
        seq![0x1b, 0x5b, letter]
    }
}

spec fn ss3_bytes(ctrl: bool, shift: bool, alt: bool, letter: u8) -> Seq<u8> {
    if ctrl || shift || alt {
        seq![0x1b, 0x5b, 0x31, 0x3b, modifier_digit(ctrl, shift, alt), letter]
    } else {
        seq![0x1b, 0x4f, letter]
    }
}

spec fn tilde_bytes(ctrl: bool, shift: bool, alt: bool, number: Seq<u8>) -> Seq<u8> {
    seq![0x1bu8, 0x5b] + number + if ctrl || shift || alt {
        seq![0x3bu8, modifier_digit(ctrl, shift, alt), 0x7e]
    } else {
        seq![0x7eu8]
    }
}

spec fn byte_bytes(alt: bool, byte: u8) -> Seq<u8> {
    if alt {
        seq![0x1b, byte]
    } else {
        seq![byte]
    }
}

// === Named keys ===

proof fn lemma_name_chars()
    ensures
        "cr"@.len() == 2,
        "cr"@[0] == 'c',
        "cr"@[1] == 'r',
        "enter"@.len() == 5,
        "enter"@[0] == 'e',
        "enter"@[1] == 'n',
        "enter"@[2] == 't',
        "enter"@[3] == 'e',
        "enter"@[4] == 'r',
        "esc"@.len() == 3,
        "esc"@[0] == 'e',
        "esc"@[1] == 's',
        "esc"@[2] == 'c',
        "tab"@.len() == 3,
        "tab"@[0] == 't',
        "tab"@[1] == 'a',
        "tab"@[2] == 'b',
        "bs"@.len() == 2,
        "bs"@[0] == 'b',
        "bs"@[1] == 's',
        "backspace"@.len() == 9,
        "backspace"@[0] == 'b',
        "backspace"@[1] == 'a',
        "backspace"@[2] == 'c',
        "backspace"@[3] == 'k',
        "backspace"@[4] == 's',
        "backspace"@[5] == 'p',
        "backspace"@[6] == 'a',
        "backspace"@[7] == 'c',
        "backspace"@[8] == 'e',
        "space"@.len() == 5,
        "space"@[0] == 's',
        "space"@[1] == 'p',
        "space"@[2] == 'a',
        "space"@[3] == 'c',
        "space"@[4] == 'e',
        "nul"@.len() == 3,
        "nul"@[0] == 'n',
        "nul"@[1] == 'u',
        "nul"@[2] == 'l',
        "del"@.len() == 3,
        "del"@[0] == 'd',
        "del"@[1] == 'e',
        "del"@[2] == 'l',
        "delete"@.len() == 6,
        "delete"@[0] == 'd',
        "delete"@[1] == 'e',
        "delete"@[2] == 'l',
        "delete"@[3] == 'e',
        "delete"@[4] == 't',
        "delete"@[5] == 'e',
        "up"@.len() == 2,
        "up"@[0] == 'u',
        "up"@[1] == 'p',
        "down"@.len() == 4,
        "down"@[0] == 'd',
        "down"@[1] == 'o',
        "down"@[2] == 'w',
        "down"@[3] == 'n',
        "right"@.len() == 5,
        "right"@[0] == 'r',
        "right"@[1] == 'i',
        "right"@[2] == 'g',
        "right"@[3] == 'h',
        "right"@[4] == 't',
        "left"@.len() == 4,
        "left"@[0] == 'l',
        "left"@[1] == 'e',
        "left"@[2] == 'f',
        "left"@[3] == 't',
        "home"@.len() == 4,
        "home"@[0] == 'h',
        "home"@[1] == 'o',
        "home"@[2] == 'm',
        "home"@[3] == 'e',
        "end"@.len() == 3,
        "end"@[0] == 'e',
        "end"@[1] == 'n',
        "end"@[2] == 'd',
        "insert"@.len() == 6,
        "insert"@[0] == 'i',
        "insert"@[1] == 'n',
        "insert"@[2] == 's',
        "insert"@[3] == 'e',
        "insert"@[4] == 'r',
        "insert"@[5] == 't',
        "pageup"@.len() == 6,
        "pageup"@[0] == 'p',
        "pageup"@[1] == 'a',
        "pageup"@[2] == 'g',
        "pageup"@[3] == 'e',
        "pageup"@[4] == 'u',
        "pageup"@[5] == 'p',
        "pagedown"@.len() == 8,
        "pagedown"@[0] == 'p',
        "pagedown"@[1] == 'a',
        "pagedown"@[2] == 'g',
        "pagedown"@[3] == 'e',
        "pagedown"@[4] == 'd',
        "pagedown"@[5] == 'o',
        "pagedown"@[6] == 'w',
        "pagedown"@[7] == 'n',
        "f1"@.len() == 2,
        "f1"@[0] == 'f',
        "f1"@[1] == '1',
        "f2"@.len() == 2,
        "f2"@[0] == 'f',
        "f2"@[1] == '2',
        "f3"@.len() == 2,
        "f3"@[0] == 'f',
        "f3"@[1] == '3',
        "f4"@.len() == 2,
        "f4"@[0] == 'f',
        "f4"@[1] == '4',
        "f5"@.len() == 2,
        "f5"@[0] == 'f',
        "f5"@[1] == '5',
        "f6"@.len() == 2,
        "f6"@[0] == 'f',
        "f6"@[1] == '6',
        "f7"@.len() == 2,
        "f7"@[0] == 'f',
        "f7"@[1] == '7',
        "f8"@.len() == 2,
        "f8"@[0] == 'f',
        "f8"@[1] == '8',
        "f9"@.len() == 2,
        "f9"@[0] == 'f',
        "f9"@[1] == '9',
        "f10"@.len() == 3,
        "f10"@[0] == 'f',
        "f10"@[1] == '1',
        "f10"@[2] == '0',
        "f11"@.len() == 3,
        "f11"@[0] == 'f',
        "f11"@[1] == '1',
        "f11"@[2] == '1',
        "f12"@.len() == 3,
        "f12"@[0] == 'f',
        "f12"@[1] == '1',
        "f12"@[2] == '2',
        "stdin"@.len() == 5,
        "stdin"@[0] == 's',
        "stdin"@[1] == 't',
        "stdin"@[2] == 'd',
        "stdin"@[3] == 'i',
        "stdin"@[4] == 'n',
        "sleep"@.len() == 5,
        "sleep"@[0] == 's',
        "sleep"@[1] == 'l',
        "sleep"@[2] == 'e',
        "sleep"@[3] == 'e',
        "sleep"@[4] == 'p',
        "wait"@.len() == 4,
        "wait"@[0] == 'w',
        "wait"@[1] == 'a',
        "wait"@[2] == 'i',
        "wait"@[3] == 't',
{
    reveal_strlit("cr");
    reveal_strlit("enter");
    reveal_strlit("esc");
    reveal_strlit("tab");
    reveal_strlit("bs");
    reveal_strlit("backspace");
    reveal_strlit("space");
    reveal_strlit("nul");
    reveal_strlit("del");
    reveal_strlit("delete");
    reveal_strlit("up");
    reveal_strlit("down");
    reveal_strlit("right");
    reveal_strlit("left");
    reveal_strlit("home");
    reveal_strlit("end");
    reveal_strlit("insert");
    reveal_strlit("pageup");
    reveal_strlit("pagedown");
    reveal_strlit("f1");
    reveal_strlit("f2");
    reveal_strlit("f3");
    reveal_strlit("f4");
    reveal_strlit("f5");
    reveal_strlit("f6");
    reveal_strlit("f7");
    reveal_strlit("f8");
    reveal_strlit("f9");
    reveal_strlit("f10");
    reveal_strlit("f11");
    reveal_strlit("f12");
    reveal_strlit("stdin");
    reveal_strlit("sleep");
    reveal_strlit("wait");
}

proof fn lemma_letter_key(name: Seq<char>, letter: u8)
    requires
        name.len() > 1,
        name[1] != '-',
        name != "stdin"@,
        name != "sleep"@,
        name != "wait"@,
        name.len() > 4 ==> name[4] != ':',
        name.len() > 5 ==> name[5] != ':',
        forall|ctrl: bool, shift: bool, alt: bool|
            #[trigger] named_key(name, ctrl, shift, alt) == Some(
                letter_bytes(ctrl, shift, alt, letter),
            ),
    ensures
        is_letter_key(name, letter),
{
    assert forall|ctrl: bool, shift: bool, alt: bool|
        ctrl || shift || alt implies sends(
        #[trigger] prefix_of(ctrl, shift, alt) + name,
        seq![0x1b, 0x5b, 0x31, 0x3b, modifier_digit(ctrl, shift, alt), letter],
    ) by {
        lemma_modified(ctrl, shift, alt, name);
        assert(named_key(name, ctrl, shift, alt) is Some);
    }
    lemma_modified(false, false, false, name);
    assert(named_key(name, false, false, false) is Some);
    assert(prefix_of(false, false, false) + name =~= name);
}

proof fn lemma_ss3_key(name: Seq<char>, letter: u8)
    requires
        name.len() > 1,
        name[1] != '-',
        name != "stdin"@,
        name != "sleep"@,
        name != "wait"@,
        name.len() > 4 ==> name[4] != ':',
        name.len() > 5 ==> name[5] != ':',
        forall|ctrl: bool, shift: bool, alt: bool|
            #[trigger] named_key(name, ctrl, shift, alt) == Some(
                ss3_bytes(ctrl, shift, alt, letter),
            ),
    ensures
        is_ss3_key(name, letter),
{
    assert forall|ctrl: bool, shift: bool, alt: bool|
        ctrl || shift || alt implies sends(
        #[trigger] prefix_of(ctrl, shift, alt) + name,
        seq![0x1b, 0x5b, 0x31, 0x3b, modifier_digit(ctrl, shift, alt), letter],
    ) by {
        lemma_modified(ctrl, shift, alt, name);
        assert(named_key(name, ctrl, shift, alt) is Some);
    }
    lemma_modified(false, false, false, name);
    assert(named_key(name, false, false, false) is Some);
    assert(prefix_of(false, false, false) + name =~= name);
}

proof fn lemma_tilde_key(name: Seq<char>, number: Seq<u8>)
    requires
        name.len() > 1,
        name[1] != '-',
        name != "stdin"@,
        name != "sleep"@,
        name != "wait"@,
        name.len() > 4 ==> name[4] != ':',
        name.len() > 5 ==> name[5] != ':',
        forall|ctrl: bool, shift: bool, alt: bool|
            #[trigger] named_key(name, ctrl, shift, alt) == Some(
                tilde_bytes(ctrl, shift, alt, number),
            ),
    ensures
        is_tilde_key(name, number),
{
    assert forall|ctrl: bool, shift: bool, alt: bool|
        ctrl || shift || alt implies sends(
        #[trigger] prefix_of(ctrl, shift, alt) + name,
        seq![0x1bu8, 0x5b] + number + seq![0x3bu8, modifier_digit(ctrl, shift, alt), 0x7e],
    ) by {
        lemma_modified(ctrl, shift, alt, name);
        assert(named_key(name, ctrl, shift, alt) is Some);
    }
    lemma_modified(false, false, false, name);
    assert(named_key(name, false, false, false) is Some);
    assert(prefix_of(false, false, false) + name =~= name);
}

proof fn lemma_byte_key(name: Seq<char>, byte: u8)
    requires
        name.len() > 1,
        name[1] != '-',
        name != "stdin"@,
        name != "sleep"@,
        name != "wait"@,
        name.len() > 4 ==> name[4] != ':',
        name.len() > 5 ==> name[5] != ':',
        forall|ctrl: bool, shift: bool, alt: bool|
            #[trigger] named_key(name, ctrl, shift, alt) == Some(
                byte_bytes(alt, byte),
            ),
    ensures
        is_byte_key(name, byte),
{
    assert forall|ctrl: bool, shift: bool, alt: bool|
        sends(
        #[trigger] prefix_of(ctrl, shift, alt) + name,
        if alt {
            seq![0x1b, byte]
        } else {
            seq![byte]
        },
    ) by {
        lemma_modified(ctrl, shift, alt, name);
        assert(named_key(name, ctrl, shift, alt) is Some);
    }
}

#[verifier::spinoff_prover]
proof fn lemma_key_up()
    ensures
        is_letter_key("up"@, 0x41),
{
    lemma_name_chars();
    reveal_with_fuel(decimal_bytes, 3);
    assert forall|ctrl: bool, shift: bool, alt: bool|
        #[trigger] named_key("up"@, ctrl, shift, alt)
        == Some(letter_bytes(ctrl, shift, alt, 0x41)) by {
        assert(named_key("up"@, ctrl, shift, alt)->Some_0 =~= letter_bytes(ctrl, shift, alt, 0x41));
    }
    lemma_letter_key("up"@, 0x41);
}

#[verifier::spinoff_prover]
proof fn lemma_key_down()
    ensures
        is_letter_key("down"@, 0x42),
{
    lemma_name_chars();
    reveal_with_fuel(decimal_bytes, 3);
    assert forall|ctrl: bool, shift: bool, alt: bool|
        #[trigger] named_key("down"@, ctrl, shift, alt)
        == Some(letter_bytes(ctrl, shift, alt, 0x42)) by {
        assert(named_key("down"@, ctrl, shift, alt)->Some_0
            =~= letter_bytes(ctrl, shift, alt, 0x42));
    }
    lemma_letter_key("down"@, 0x42);
}

#[verifier::spinoff_prover]
proof fn lemma_key_right()
    ensures
        is_letter_key("right"@, 0x43),
{
    lemma_name_chars();
    reveal_with_fuel(decimal_bytes, 3);
    assert forall|ctrl: bool, shift: bool, alt: bool|
        #[trigger] named_key("right"@, ctrl, shift, alt)
        == Some(letter_bytes(ctrl, shift, alt, 0x43)) by {
        assert(named_key("right"@, ctrl, shift, alt)->Some_0
            =~= letter_bytes(ctrl, shift, alt, 0x43));
    }
    lemma_letter_key("right"@, 0x43);
}

#[verifier::spinoff_prover]
proof fn lemma_key_left()
    ensures
        is_letter_key("left"@, 0x44),
{
    lemma_name_chars();
    reveal_with_fuel(decimal_bytes, 3);
    assert forall|ctrl: bool, shift: bool, alt: bool|
        #[trigger] named_key("left"@, ctrl, shift, alt)
        == Some(letter_bytes(ctrl, shift, alt, 0x44)) by {
        assert(named_key("left"@, ctrl, shift, alt)->Some_0
            =~= letter_bytes(ctrl, shift, alt, 0x44));
    }
    lemma_letter_key("left"@, 0x44);
}

#[verifier::spinoff_prover]
proof fn lemma_key_home()
    ensures
        is_letter_key("home"@, 0x48),
{
    lemma_name_chars();
    reveal_with_fuel(decimal_bytes, 3);
    assert forall|ctrl: bool, shift: bool, alt: bool|
        #[trigger] named_key("home"@, ctrl, shift, alt)
        == Some(letter_bytes(ctrl, shift, alt, 0x48)) by {
        assert(named_key("home"@, ctrl, shift, alt)->Some_0
            =~= letter_bytes(ctrl, shift, alt, 0x48));
    }
    lemma_letter_key("home"@, 0x48);
}

#[verifier::spinoff_prover]
proof fn lemma_key_end()
    ensures
        is_letter_key("end"@, 0x46),
{
    lemma_name_chars();
    reveal_with_fuel(decimal_bytes, 3);
    assert forall|ctrl: bool, shift: bool, alt: bool|
        #[trigger] named_key("end"@, ctrl, shift, alt)
        == Some(letter_bytes(ctrl, shift, alt, 0x46)) by {
        assert(named_key("end"@, ctrl, shift, alt)->Some_0
            =~= letter_bytes(ctrl, shift, alt, 0x46));
    }
    lemma_letter_key("end"@, 0x46);
}

/// The arrow keys are `ESC [` with A for up, B for down, C for right and D for left; Home is H
/// and End is F.
pub proof fn law_arrow_keys()
    ensures
        is_letter_key("up"@, 0x41),
        is_letter_key("down"@, 0x42),
        is_letter_key("right"@, 0x43),
        is_letter_key("left"@, 0x44),
        is_letter_key("home"@, 0x48),
        is_letter_key("end"@, 0x46),
{
    lemma_key_up();
    lemma_key_down();
    lemma_key_right();
    lemma_key_left();
    lemma_key_home();
    lemma_key_end();
}

/// F1 to F4 are `ESC O` with P, Q, R and S.
#[verifier::spinoff_prover]
pub proof fn law_first_function_keys()
    ensures
        is_ss3_key("f1"@, 0x50),
        is_ss3_key("f2"@, 0x51),
        is_ss3_key("f3"@, 0x52),
        is_ss3_key("f4"@, 0x53),
{
    lemma_name_chars();
    reveal_with_fuel(decimal_bytes, 3);
    assert forall|ctrl: bool, shift: bool, alt: bool|
        #[trigger] named_key("f1"@, ctrl, shift, alt)
        == Some(ss3_bytes(ctrl, shift, alt, 0x50)) by {
        assert(named_key("f1"@, ctrl, shift, alt)->Some_0 =~= ss3_bytes(ctrl, shift, alt, 0x50));
    }
    lemma_ss3_key("f1"@, 0x50);
    assert forall|ctrl: bool, shift: bool, alt: bool|
        #[trigger] named_key("f2"@, ctrl, shift, alt)
        == Some(ss3_bytes(ctrl, shift, alt, 0x51)) by {
        assert(named_key("f2"@, ctrl, shift, alt)->Some_0 =~= ss3_bytes(ctrl, shift, alt, 0x51));
    }
    lemma_ss3_key("f2"@, 0x51);
    assert forall|ctrl: bool, shift: bool, alt: bool|
        #[trigger] named_key("f3"@, ctrl, shift, alt)
        == Some(ss3_bytes(ctrl, shift, alt, 0x52)) by {
        assert(named_key("f3"@, ctrl, shift, alt)->Some_0 =~= ss3_bytes(ctrl, shift, alt, 0x52));
    }
    lemma_ss3_key("f3"@, 0x52);
    assert forall|ctrl: bool, shift: bool, alt: bool|
        #[trigger] named_key("f4"@, ctrl, shift, alt)
        == Some(ss3_bytes(ctrl, shift, alt, 0x53)) by {
        assert(named_key("f4"@, ctrl, shift, alt)->Some_0 =~= ss3_bytes(ctrl, shift, alt, 0x53));
    }
    lemma_ss3_key("f4"@, 0x53);
}

/// Insert, Delete, PageUp and PageDown are `ESC [` with the numbers 2, 3, 5 and 6 and a tilde.
#[verifier::spinoff_prover]
pub proof fn law_editing_keys()
    ensures
        is_tilde_key("insert"@, seq![0x32u8]),
        is_tilde_key("del"@, seq![0x33u8]),
        is_tilde_key("delete"@, seq![0x33u8]),
        is_tilde_key("pageup"@, seq![0x35u8]),
        is_tilde_key("pagedown"@, seq![0x36u8]),
{
    lemma_name_chars();
    reveal_with_fuel(decimal_bytes, 3);
    assert forall|ctrl: bool, shift: bool, alt: bool|
        #[trigger] named_key("insert"@, ctrl, shift, alt)
        == Some(tilde_bytes(ctrl, shift, alt, seq![0x32u8])) by {
        assert(named_key("insert"@, ctrl, shift, alt)->Some_0
            =~= tilde_bytes(ctrl, shift, alt, seq![0x32u8]));
    }
    lemma_tilde_key("insert"@, seq![0x32u8]);
    assert forall|ctrl: bool, shift: bool, alt: bool|
        #[trigger] named_key("del"@, ctrl, shift, alt)
        == Some(tilde_bytes(ctrl, shift, alt, seq![0x33u8])) by {
        assert(named_key("del"@, ctrl, shift, alt)->Some_0
            =~= tilde_bytes(ctrl, shift, alt, seq![0x33u8]));
    }
    lemma_tilde_key("del"@, seq![0x33u8]);
    assert forall|ctrl: bool, shift: bool, alt: bool|
        #[trigger] named_key("delete"@, ctrl, shift, alt)
        == Some(tilde_bytes(ctrl, shift, alt, seq![0x33u8])) by {
        assert(named_key("delete"@, ctrl, shift, alt)->Some_0
            =~= tilde_bytes(ctrl, shift, alt, seq![0x33u8]));
    }
    lemma_tilde_key("delete"@, seq![0x33u8]);
    assert forall|ctrl: bool, shift: bool, alt: bool|
        #[trigger] named_key("pageup"@, ctrl, shift, alt)
        == Some(tilde_bytes(ctrl, shift, alt, seq![0x35u8])) by {
        assert(named_key("pageup"@, ctrl, shift, alt)->Some_0
            =~= tilde_bytes(ctrl, shift, alt, seq![0x35u8]));
    }
    lemma_tilde_key("pageup"@, seq![0x35u8]);
    assert forall|ctrl: bool, shift: bool, alt: bool|
        #[trigger] named_key("pagedown"@, ctrl, shift, alt)
        == Some(tilde_bytes(ctrl, shift, alt, seq![0x36u8])) by {
        assert(named_key("pagedown"@, ctrl, shift, alt)->Some_0
            =~= tilde_bytes(ctrl, shift, alt, seq![0x36u8]));
    }
    lemma_tilde_key("pagedown"@, seq![0x36u8]);
}

#[verifier::spinoff_prover]
proof fn lemma_key_f5()
    ensures
        is_tilde_key("f5"@, seq![0x31u8, 0x35u8]),
{
    lemma_name_chars();
    reveal_with_fuel(decimal_bytes, 3);
    assert forall|ctrl: bool, shift: bool, alt: bool|
        #[trigger] named_key("f5"@, ctrl, shift, alt)
        == Some(tilde_bytes(ctrl, shift, alt, seq![0x31u8, 0x35u8])) by {
        assert(named_key("f5"@, ctrl, shift, alt)->Some_0
            =~= tilde_bytes(ctrl, shift, alt, seq![0x31u8, 0x35u8]));
    }
    lemma_tilde_key("f5"@, seq![0x31u8, 0x35u8]);
}

#[verifier::spinoff_prover]
proof fn lemma_key_f6()
    ensures
        is_tilde_key("f6"@, seq![0x31u8, 0x37u8]),
{
    lemma_name_chars();
    reveal_with_fuel(decimal_bytes, 3);
    assert forall|ctrl: bool, shift: bool, alt: bool|
        #[trigger] named_key("f6"@, ctrl, shift, alt)
        == Some(tilde_bytes(ctrl, shift, alt, seq![0x31u8, 0x37u8])) by {
        assert(named_key("f6"@, ctrl, shift, alt)->Some_0
            =~= tilde_bytes(ctrl, shift, alt, seq![0x31u8, 0x37u8]));
    }
    lemma_tilde_key("f6"@, seq![0x31u8, 0x37u8]);
}

#[verifier::spinoff_prover]
proof fn lemma_key_f7()
    ensures
        is_tilde_key("f7"@, seq![0x31u8, 0x38u8]),
{
    lemma_name_chars();
    reveal_with_fuel(decimal_bytes, 3);
    assert forall|ctrl: bool, shift: bool, alt: bool|
        #[trigger] named_key("f7"@, ctrl, shift, alt)
        == Some(tilde_bytes(ctrl, shift, alt, seq![0x31u8, 0x38u8])) by {
        assert(named_key("f7"@, ctrl, shift, alt)->Some_0
            =~= tilde_bytes(ctrl, shift, alt, seq![0x31u8, 0x38u8]));
    }
    lemma_tilde_key("f7"@, seq![0x31u8, 0x38u8]);
}

#[verifier::spinoff_prover]
proof fn lemma_key_f8()
    ensures
        is_tilde_key("f8"@, seq![0x31u8, 0x39u8]),
{
    lemma_name_chars();
    reveal_with_fuel(decimal_bytes, 3);
    assert forall|ctrl: bool, shift: bool, alt: bool|
        #[trigger] named_key("f8"@, ctrl, shift, alt)
        == Some(tilde_bytes(ctrl, shift, alt, seq![0x31u8, 0x39u8])) by {
        assert(named_key("f8"@, ctrl, shift, alt)->Some_0
            =~= tilde_bytes(ctrl, shift, alt, seq![0x31u8, 0x39u8]));
    }
    lemma_tilde_key("f8"@, seq![0x31u8, 0x39u8]);
}

#[verifier::spinoff_prover]
proof fn lemma_key_f9()
    ensures
        is_tilde_key("f9"@, seq![0x32u8, 0x30u8]),
{
    lemma_name_chars();
    reveal_with_fuel(decimal_bytes, 3);
    assert forall|ctrl: bool, shift: bool, alt: bool|
        #[trigger] named_key("f9"@, ctrl, shift, alt)
        == Some(tilde_bytes(ctrl, shift, alt, seq![0x32u8, 0x30u8])) by {
        assert(named_key("f9"@, ctrl, shift, alt)->Some_0
            =~= tilde_bytes(ctrl, shift, alt, seq![0x32u8, 0x30u8]));
    }
    lemma_tilde_key("f9"@, seq![0x32u8, 0x30u8]);
}

#[verifier::spinoff_prover]
proof fn lemma_key_f10()
    ensures
        is_tilde_key("f10"@, seq![0x32u8, 0x31u8]),
{
    lemma_name_chars();
    reveal_with_fuel(decimal_bytes, 3);
    assert forall|ctrl: bool, shift: bool, alt: bool|
        #[trigger] named_key("f10"@, ctrl, shift, alt)
        == Some(tilde_bytes(ctrl, shift, alt, seq![0x32u8, 0x31u8])) by {
        assert(named_key("f10"@, ctrl, shift, alt)->Some_0
            =~= tilde_bytes(ctrl, shift, alt, seq![0x32u8, 0x31u8]));
    }
    lemma_tilde_key("f10"@, seq![0x32u8, 0x31u8]);
}

#[verifier::spinoff_prover]
proof fn lemma_key_f11()
    ensures
        is_tilde_key("f11"@, seq![0x32u8, 0x33u8]),
{
    lemma_name_chars();
    reveal_with_fuel(decimal_bytes, 3);
    assert forall|ctrl: bool, shift: bool, alt: bool|
        #[trigger] named_key("f11"@, ctrl, shift, alt)
        == Some(tilde_bytes(ctrl, shift, alt, seq![0x32u8, 0x33u8])) by {
        assert(named_key("f11"@, ctrl, shift, alt)->Some_0
            =~= tilde_bytes(ctrl, shift, alt, seq![0x32u8, 0x33u8]));
    }
    lemma_tilde_key("f11"@, seq![0x32u8, 0x33u8]);
}

#[verifier::spinoff_prover]
proof fn lemma_key_f12()
    ensures
        is_tilde_key("f12"@, seq![0x32u8, 0x34u8]),
{
    lemma_name_chars();
    reveal_with_fuel(decimal_bytes, 3);
    assert forall|ctrl: bool, shift: bool, alt: bool|
        #[trigger] named_key("f12"@, ctrl, shift, alt)
        == Some(tilde_bytes(ctrl, shift, alt, seq![0x32u8, 0x34u8])) by {
        assert(named_key("f12"@, ctrl, shift, alt)->Some_0
            =~= tilde_bytes(ctrl, shift, alt, seq![0x32u8, 0x34u8]));
    }
    lemma_tilde_key("f12"@, seq![0x32u8, 0x34u8]);
}

/// F5 to F12 are `ESC [` with the numbers 15, 17 to 21, 23 and 24 and a tilde.
pub proof fn law_last_function_keys()
    ensures
        is_tilde_key("f5"@, seq![0x31u8, 0x35u8]),
        is_tilde_key("f6"@, seq![0x31u8, 0x37u8]),
        is_tilde_key("f7"@, seq![0x31u8, 0x38u8]),
        is_tilde_key("f8"@, seq![0x31u8, 0x39u8]),
        is_tilde_key("f9"@, seq![0x32u8, 0x30u8]),
        is_tilde_key("f10"@, seq![0x32u8, 0x31u8]),
        is_tilde_key("f11"@, seq![0x32u8, 0x33u8]),
        is_tilde_key("f12"@, seq![0x32u8, 0x34u8]),
{
    lemma_key_f5();
    lemma_key_f6();
    lemma_key_f7();
    lemma_key_f8();
    lemma_key_f9();
    lemma_key_f10();
    lemma_key_f11();
    lemma_key_f12();
}

/// Enter is a carriage return, Backspace is DEL and Space is a space.
#[verifier::spinoff_prover]
pub proof fn law_single_byte_keys()
    ensures
        is_byte_key("cr"@, 0x0d),
        is_byte_key("enter"@, 0x0d),
        is_byte_key("bs"@, 0x7f),
        is_byte_key("backspace"@, 0x7f),
        is_byte_key("space"@, 0x20),
{
    lemma_name_chars();
    reveal_with_fuel(decimal_bytes, 3);
    assert forall|ctrl: bool, shift: bool, alt: bool|
        #[trigger] named_key("cr"@, ctrl, shift, alt)
        == Some(byte_bytes(alt, 0x0d)) by {
        assert(named_key("cr"@, ctrl, shift, alt)->Some_0 =~= byte_bytes(alt, 0x0d));
    }
    lemma_byte_key("cr"@, 0x0d);
    assert forall|ctrl: bool, shift: bool, alt: bool|
        #[trigger] named_key("enter"@, ctrl, shift, alt)
        == Some(byte_bytes(alt, 0x0d)) by {
        assert(named_key("enter"@, ctrl, shift, alt)->Some_0 =~= byte_bytes(alt, 0x0d));
    }
    lemma_byte_key("enter"@, 0x0d);
    assert forall|ctrl: bool, shift: bool, alt: bool|
        #[trigger] named_key("bs"@, ctrl, shift, alt)
        == Some(byte_bytes(alt, 0x7f)) by {
        assert(named_key("bs"@, ctrl, shift, alt)->Some_0 =~= byte_bytes(alt, 0x7f));
    }
    lemma_byte_key("bs"@, 0x7f);
    assert forall|ctrl: bool, shift: bool, alt: bool|
        #[trigger] named_key("backspace"@, ctrl, shift, alt)
        == Some(byte_bytes(alt, 0x7f)) by {
        assert(named_key("backspace"@, ctrl, shift, alt)->Some_0 =~= byte_bytes(alt, 0x7f));
    }
    lemma_byte_key("backspace"@, 0x7f);
    assert forall|ctrl: bool, shift: bool, alt: bool|
        #[trigger] named_key("space"@, ctrl, shift, alt)
        == Some(byte_bytes(alt, 0x20)) by {
        assert(named_key("space"@, ctrl, shift, alt)->Some_0 =~= byte_bytes(alt, 0x20));
    }
    lemma_byte_key("space"@, 0x20);
}

/// Tab is a tab, and with Shift alone `ESC [ Z`. Escape and NUL are one byte whatever is held.
pub proof fn law_tab_escape_and_nul(ctrl: bool, shift: bool, alt: bool)
    ensures
        sends(
            prefix_of(ctrl, shift, alt) + "tab"@,
            if shift && !ctrl && !alt {
                seq![0x1b, 0x5b, 0x5a]
            } else if alt {
                seq![0x1b, 0x09]
            } else {
                seq![0x09]
            },
        ),
        sends(prefix_of(ctrl, shift, alt) + "esc"@, seq![0x1b]),
        sends(prefix_of(ctrl, shift, alt) + "nul"@, seq![0x00]),
{
    lemma_name_chars();
    lemma_modified(ctrl, shift, alt, "tab"@);
    lemma_modified(ctrl, shift, alt, "esc"@);
    lemma_modified(ctrl, shift, alt, "nul"@);
    assert(named_key("tab"@, ctrl, shift, alt)->Some_0 =~= if shift && !ctrl && !alt {
        seq![0x1b, 0x5b, 0x5a]
    } else if alt {
        seq![0x1b, 0x09]
    } else {
        seq![0x09]
    });
}

// === Characters ===

/// A character is its own byte, a small letter with Shift the capital one. With Ctrl, letters and
/// `@ [ \\ ] ^ _` are their place from `@` on, whether or not Shift is held, and all other
/// characters are refused. Alt puts ESC in front.
pub proof fn law_character_keys(c: char, ctrl: bool, shift: bool, alt: bool)
    requires
        c <= '\u{7f}',
    ensures
        ({
            let expr = prefix_of(ctrl, shift, alt) + seq![c];
            let byte: u8 = if ctrl {
                (c as u8 % 32) as u8
            } else if shift && 'a' <= c <= 'z' {
                (c as u8 - 32) as u8
            } else {
                c as u8
            };
            if ctrl && !('@' <= c <= '_' || 'a' <= c <= 'z') {
                key_expression(expr) is Err
            } else {
                sends(
                    expr,
                    if alt {
                        seq![0x1b, byte]
                    } else {
                        seq![byte]
                    },
                )
            }
        }),
{
    reveal_strlit("stdin");
    reveal_strlit("sleep");
    reveal_strlit("wait");
    lemma_modified(ctrl, shift, alt, seq![c]);
    if let Ok(b) = char_key(c, ctrl, shift, alt) {
        let byte: u8 = if ctrl {
            (c as u8 % 32) as u8
        } else if shift && 'a' <= c <= 'z' {
            (c as u8 - 32) as u8
        } else {
            c as u8
        };
        assert(b =~= if alt {
            seq![0x1b, byte]
        } else {
            seq![byte]
        });
    }
}

// === Pauses and the placeholder ===

/// `sleep:` and a duration is a sleep of so many milliseconds.
pub proof fn law_sleeps(d: Seq<char>)
    ensures
        match duration(d) {
            Ok(ms) => key_expression(seq!['s', 'l', 'e', 'e', 'p', ':'] + d) == Ok::<
                KeyGroupView,
                Seq<char>,
            >(KeyGroupView::Sleep(ms)),
            Err(_) => key_expression(seq!['s', 'l', 'e', 'e', 'p', ':'] + d) is Err,
        },
{
    reveal_strlit("stdin");
    reveal_strlit("sleep");
    reveal_strlit("wait");
    reveal_strlit("sleep:");
    let head = seq!['s', 'l', 'e', 'e', 'p', ':'];
    assert("sleep:"@ =~= head);
    let expr = head + d;
    assert(expr.subrange(0, 6) =~= head);
    assert(expr.skip(6) =~= d);
}

/// `wait:` and a duration is a wait with that timeout; a second duration behind a colon is its
/// idle threshold.
pub proof fn law_waits(d: Seq<char>, t: Seq<char>)
    requires
        !d.contains(':'),
    ensures
        match duration(d) {
            Ok(timeout) => {
                let head = seq!['w', 'a', 'i', 't', ':'] + d;
                &&& key_expression(head) == Ok::<KeyGroupView, Seq<char>>(
                    KeyGroupView::Wait { timeout, idle_threshold: None },
                )
                &&& match duration(t) {
                    Ok(idle) => key_expression(head + seq![':'] + t) == Ok::<
                        KeyGroupView,
                        Seq<char>,
                    >(KeyGroupView::Wait { timeout, idle_threshold: Some(idle) }),
                    Err(_) => key_expression(head + seq![':'] + t) is Err,
                }
            },
            Err(_) => key_expression(seq!['w', 'a', 'i', 't', ':'] + d) is Err,
        },
{
    reveal_strlit("stdin");
    reveal_strlit("sleep");
    reveal_strlit("wait");
    reveal_strlit("sleep:");
    reveal_strlit("wait:");
    let head = seq!['w', 'a', 'i', 't', ':'];
    assert("wait:"@ =~= head);
    assert("sleep:"@[0] == 's');
    let expr = head + d;
    let both = head + d + seq![':'] + t;
    assert(expr.subrange(0, 5) =~= head);
    assert(both.subrange(0, 5) =~= head);
    assert(expr.skip(5) =~= d);
    let rest = d + seq![':'] + t;
    assert(both.skip(5) =~= rest);
    assert(!"sleep:"@.is_prefix_of(expr)) by {
        if "sleep:"@.is_prefix_of(expr) {
            assert(expr.subrange(0, 6)[0] == expr[0]);
        }
    }
    assert(!"sleep:"@.is_prefix_of(both)) by {
        if "sleep:"@.is_prefix_of(both) {
            assert(both.subrange(0, 6)[0] == both[0]);
        }
    }
    lemma_position(d, ':');
    lemma_position(rest, ':');
    assert(position(d, ':') == d.len()) by {
        if position(d, ':') < d.len() {
            assert(d[position(d, ':') as int] == ':');
            assert(d.contains(':'));
        }
    }
    assert(position(rest, ':') == d.len()) by {
        let n = position(rest, ':') as int;
        assert(rest[d.len() as int] == ':');
        if n < d.len() {
            assert(rest[n] == d[n]);
            assert(d.contains(':'));
        }
    }
    assert(d.take(d.len() as int) =~= d);
    assert(rest.take(d.len() as int) =~= d);
    assert(rest.skip((d.len() + 1) as int) =~= t);
}

/// The placeholder is `stdin`.
pub proof fn law_the_placeholder()
    ensures
        key_expression(seq!['s', 't', 'd', 'i', 'n']) == Ok::<KeyGroupView, Seq<char>>(
            KeyGroupView::Stdin,
        ),
{
    reveal_strlit("stdin");
    assert("stdin"@ =~= seq!['s', 't', 'd', 'i', 'n']);
}

// === Arguments ===

/// Text as one group, where there is any.
pub open spec fn text_group(s: Seq<char>) -> Seq<KeyGroupView> {
    if s.len() == 0 {
        Seq::empty()
    } else {
        seq![KeyGroupView::Bytes(encode_utf8(s))]
    }
}

proof fn lemma_text_before(a: Seq<char>, s: Seq<char>)
    ensures
        match arg_groups(s) {
            Ok(g) => arg_groups(escaped(a) + s) == Ok::<Seq<KeyGroupView>, Seq<char>>(
                glue(text_group(a), g),
            ),
            Err(e) => arg_groups(escaped(a) + s) == Err::<Seq<KeyGroupView>, Seq<char>>(e),
        },
    decreases a.len(),
{
    if a.len() == 0 {
        assert(escaped(a) + s =~= s);
        if let Ok(g) = arg_groups(s) {
            lemma_glue_nothing(g);
        }
    } else {
        let c = a[0];
        let e = escaped(a) + s;
        let n: nat = if c == '{' || c == '}' {
            2
        } else {
            1
        };
        lemma_text_before(a.skip(1), s);
        assert(e.skip(n as int) =~= escaped(a.skip(1)) + s);
        let g = KeyGroupView::Bytes(encode_utf8(seq![c]));
        assert(token(e) == Ok::<(KeyGroupView, nat), Seq<char>>((g, n)));
        if let Ok(r) = arg_groups(s) {
            lemma_glue_associative(seq![g], text_group(a.skip(1)), r);
            assert(a =~= seq![c] + a.skip(1));
            lemma_utf8_concat(seq![c], a.skip(1));
            reveal(glue);
            if a.len() == 1 {
                assert(a =~= seq![c]);
            }
            assert(glue(seq![g], text_group(a.skip(1))) =~~= text_group(a));
        }
    }
}

/// A key expression stands for its group, whatever text stands around it: bytes are sent together
/// with the text before and behind them, and anything else stands between the two. What is wrong
/// with the expression is wrong with the argument.
pub proof fn law_expressions_in_text(a: Seq<char>, expr: Seq<char>, b: Seq<char>)
    requires
        expr.len() > 0,
        expr[0] != '{',
        !expr.contains('}'),
    ensures
        arg_groups(escaped(a) + (seq!['{'] + expr + seq!['}'] + escaped(b)))
            == match key_expression(expr) {
            Ok(KeyGroupView::Bytes(x)) => Ok::<Seq<KeyGroupView>, Seq<char>>(
                seq![KeyGroupView::Bytes(encode_utf8(a) + x + encode_utf8(b))],
            ),
            Ok(g) => Ok(text_group(a) + seq![g] + text_group(b)),
            Err(e) => Err(e),
        },
{
    let inner = seq!['{'] + expr + seq!['}'] + escaped(b);
    let tail = inner.skip(1);
    lemma_position(tail, '}');
    assert(tail =~= expr + seq!['}'] + escaped(b));
    assert(position(tail, '}') == expr.len()) by {
        let n = position(tail, '}') as int;
        assert(tail[expr.len() as int] == '}');
        if n < expr.len() {
            assert(tail[n] == expr[n]);
            assert(expr.contains('}'));
        }
    }
    assert(inner[1] == expr[0]);
    assert(tail.take(expr.len() as int) =~= expr);
    assert(inner.skip((expr.len() + 2) as int) =~= escaped(b));
    law_escaped_text_is_literal(b);
    lemma_text_before(a, inner);
    reveal(glue);
    assert(a.len() == 0 ==> encode_utf8(a) =~= Seq::<u8>::empty());
    assert(b.len() == 0 ==> encode_utf8(b) =~= Seq::<u8>::empty());
    if let Ok(g) = key_expression(expr) {
        let all = glue(text_group(a), glue(seq![g], text_group(b)));
        if let KeyGroupView::Bytes(x) = g {
            assert(all =~~= seq![KeyGroupView::Bytes(encode_utf8(a) + x + encode_utf8(b))]);
        } else {
            assert(all =~= text_group(a) + seq![g] + text_group(b));
        }
    }
}

/// A brace that is neither doubled nor part of an expression is refused, and so is an expression
/// with nothing in it, wherever they stand.
pub proof fn law_bad_braces_are_refused(a: Seq<char>, s: Seq<char>)
    ensures
        s.len() == 0 || s[0] != '}' ==> arg_groups(escaped(a) + (seq!['}'] + s)) is Err,
        !s.contains('}') && (s.len() == 0 || s[0] != '{') ==> arg_groups(
            escaped(a) + (seq!['{'] + s),
        ) is Err,
        arg_groups(escaped(a) + (seq!['{', '}'] + s)) is Err,
{
    lemma_text_before(a, seq!['}'] + s);
    lemma_text_before(a, seq!['{'] + s);
    lemma_text_before(a, seq!['{', '}'] + s);
    let open = seq!['{'] + s;
    assert(open.skip(1) =~= s);
    lemma_position(s, '}');
    if position(s, '}') < s.len() {
        assert(s[position(s, '}') as int] == '}');
        assert(s.contains('}'));
    }
    let empty = seq!['{', '}'] + s;
    assert(empty.skip(1)[0] == '}');
}

/// Arguments are read one by one.
pub proof fn law_one_argument(arg: Seq<char>)
    ensures
        args_groups(seq![arg]) == arg_groups(arg),
        args_groups(Seq::empty()) == Ok::<Seq<KeyGroupView>, Seq<char>>(Seq::empty()),
{
    let none = Seq::<Seq<char>>::empty();
    assert(seq![arg].drop_last() =~= none);
    assert(args_groups(none) == Ok::<Seq<KeyGroupView>, Seq<char>>(Seq::empty()));
    if let Ok(g) = arg_groups(arg) {
        assert(Seq::<KeyGroupView>::empty() + g =~= g);
    }
}

/// The user sees a key expression as it was written, whatever stands around it.
pub proof fn law_expressions_are_shown(
    a: Seq<char>,
    expr: Seq<char>,
    b: Seq<char>,
    stdin: Seq<char>,
)
    requires
        expr.len() > 0,
        expr[0] != '{',
        !expr.contains('}'),
        key_expression(expr) is Ok,
        !(key_expression(expr)->Ok_0 is Stdin),
    ensures
        shown_arg(escaped(a) + (seq!['{'] + expr + seq!['}'] + b), stdin) == escaped(a) + (seq!['{']
            + expr + seq!['}'] + shown_arg(b, stdin)),
    decreases a.len(),
{
    let inner = seq!['{'] + expr + seq!['}'] + b;
    let s = escaped(a) + inner;
    let shown = seq!['{'] + expr + seq!['}'] + shown_arg(b, stdin);
    if a.len() == 0 {
        assert(s =~= inner);
        let tail = inner.skip(1);
        lemma_position(tail, '}');
        assert(tail =~= expr + seq!['}'] + b);
        assert(position(tail, '}') == expr.len()) by {
            let n = position(tail, '}') as int;
            assert(tail[expr.len() as int] == '}');
            if n < expr.len() {
                assert(tail[n] == expr[n]);
                assert(expr.contains('}'));
            }
        }
        assert(inner[1] == expr[0]);
        assert(tail.take(expr.len() as int) =~= expr);
        let n = (expr.len() + 2) as int;
        assert(inner.skip(n) =~= b);
        assert(inner.take(n) =~= seq!['{'] + expr + seq!['}']);
        assert(shown_arg(s, stdin) =~= escaped(a) + shown);
    } else {
        let c = a[0];
        let e = escaped(a);
        let n: int = if c == '{' || c == '}' {
            2
        } else {
            1
        };
        let rest = escaped(a.skip(1));
        law_expressions_are_shown(a.skip(1), expr, b, stdin);
        assert(s.skip(n) =~= rest + inner);
        assert(s.take(n) =~= e.take(n));
        assert(e =~= e.take(n) + rest);
        let g = KeyGroupView::Bytes(encode_utf8(seq![c]));
        assert(token(s) == Ok::<(KeyGroupView, nat), Seq<char>>((g, n as nat)));
        assert(shown_arg(s, stdin) =~= e + shown);
    }
}

/// Whether a text is the name of a key.
pub open spec fn is_name(name: Seq<char>) -> bool {
    ||| name == "cr"@
    ||| name == "enter"@
    ||| name == "esc"@
    ||| name == "tab"@
    ||| name == "bs"@
    ||| name == "backspace"@
    ||| name == "space"@
    ||| name == "nul"@
    ||| name == "del"@
    ||| name == "delete"@
    ||| name == "up"@
    ||| name == "down"@
    ||| name == "right"@
    ||| name == "left"@
    ||| name == "home"@
    ||| name == "end"@
    ||| name == "insert"@
    ||| name == "pageup"@
    ||| name == "pagedown"@
    ||| name == "f1"@
    ||| name == "f2"@
    ||| name == "f3"@
    ||| name == "f4"@
    ||| name == "f5"@
    ||| name == "f6"@
    ||| name == "f7"@
    ||| name == "f8"@
    ||| name == "f9"@
    ||| name == "f10"@
    ||| name == "f11"@
    ||| name == "f12"@
}

/// A name that no key has is refused, whatever modifiers stand in front of it. So is a character
/// that is not ASCII, and so are modifiers without a name.
pub proof fn law_other_names_are_refused(
    ctrl: bool,
    shift: bool,
    alt: bool,
    name: Seq<char>,
    c: char,
)
    ensures
        name.len() > 1 && name[1] != '-' && !is_name(name) && name != "stdin"@ && name != "sleep"@
            && name != "wait"@ && (name.len() > 4 ==> name[4] != ':') && (name.len() > 5
            ==> name[5] != ':') ==> key_expression(prefix_of(ctrl, shift, alt) + name) is Err,
        c > '\u{7f}' ==> key_expression(prefix_of(ctrl, shift, alt) + seq![c]) is Err,
        ctrl || shift || alt ==> key_expression(prefix_of(ctrl, shift, alt)) is Err,
        key_expression(seq!['s', 'l', 'e', 'e', 'p']) is Err,
        key_expression(seq!['w', 'a', 'i', 't']) is Err,
{
    lemma_name_chars();
    if name.len() > 1 && name[1] != '-' && !is_name(name) && name != "stdin"@ && name != "sleep"@
        && name != "wait"@ && (name.len() > 4 ==> name[4] != ':') && (name.len() > 5 ==> name[5]
        != ':') {
        lemma_modified(ctrl, shift, alt, name);
        assert(named_key(name, ctrl, shift, alt) is None);
    }
    if c > '\u{7f}' {
        lemma_modified(ctrl, shift, alt, seq![c]);
        assert(named_key(seq![c], ctrl, shift, alt) is None);
    }
    if ctrl || shift || alt {
        lemma_only_modifiers(ctrl, shift, alt);
    }
    assert("sleep"@ =~= seq!['s', 'l', 'e', 'e', 'p']);
    assert("wait"@ =~= seq!['w', 'a', 'i', 't']);
}

proof fn lemma_only_modifiers(ctrl: bool, shift: bool, alt: bool)
    requires
        ctrl || shift || alt,
    ensures
        key_expression(prefix_of(ctrl, shift, alt)) is Err,
{
    reveal_strlit("c-");
    reveal_strlit("s-");
    reveal_strlit("a-");
    reveal_strlit("stdin");
    reveal_strlit("sleep");
    reveal_strlit("wait");
    reveal_strlit("sleep:");
    reveal_strlit("wait:");
    let none = Seq::<char>::empty();
    let list = modifier_list(ctrl, shift, alt);
    let expr = prefix_of(ctrl, shift, alt);
    lemma_all_modifiers(ctrl, shift, alt);
    lemma_modifier_list(ctrl, shift, alt);
    assert(expr =~= all_modifiers(list) + none);
    assert forall|i: int| 0 <= i < list.len() implies is_modifier(#[trigger] list[i]) by {}
    lemma_reads_modifiers(expr, list, none, false, false, false);
    assert(expr[1] == '-');
    assert("stdin"@[1] == 't');
    assert("sleep"@[1] == 'l');
    assert("wait"@[1] == 'a');
    assert(!"sleep:"@.is_prefix_of(expr)) by {
        if "sleep:"@.is_prefix_of(expr) {
            assert(expr.subrange(0, 6)[1] == expr[1]);
        }
    }
    assert(!"wait:"@.is_prefix_of(expr)) by {
        if "wait:"@.is_prefix_of(expr) {
            assert(expr.subrange(0, 5)[1] == expr[1]);
        }
    }
}

} // verus!
