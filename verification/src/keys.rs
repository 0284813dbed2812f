//! Key syntax parser for `tv exec`.
//!
//! Parses CLI arguments into sequences of byte groups that can be written to a PTY.
//!
//! # Syntax
//!
//! Each CLI argument is either:
//! - **Literal text**: plain characters sent as UTF-8 bytes (e.g. `"ls -la"`)
//! - **Key expression**: `{key_spec}` where key_spec is a key name with optional modifiers
//! - **Sleep**: `{sleep:DURATION}` pauses for a fixed duration
//! - **Wait**: `{wait:DURATION}` waits for output to settle (or `{wait:D:T}` with custom idle
//!   threshold)
//! - **Escaped braces**: `{{` and `}}` produce literal `{` and `}` characters
//!
//! # Modifiers
//!
//! - `c-` Ctrl
//! - `s-` Shift
//! - `a-` Alt/Meta
//!
//! Modifiers can be combined: `{c-s-up}` for Ctrl+Shift+Up.
use vstd::prelude::*;
use vstd::slice::slice_subrange;
use vstd::utf8::encode_utf8;
use crate::duration::{duration, parse_duration};
use crate::strings::{
    bytes_of, chars_of, concat, concat3, lemma_position, lemma_utf8_concat, position, position_of,
    string_of, strip_prefix, text, texts,
};

verus! {

/// A parsed group of key data. Durations are in milliseconds.
#[derive(Debug, PartialEq)]
pub enum KeyGroup {
    /// Raw bytes to write to the PTY.
    Bytes(Vec<u8>),
    /// Hard pause: always waits exactly that long.
    Sleep(u64),
    /// Soft wait: waits up to `timeout` for PTY output to go idle. Responds early if there is no
    /// output for `idle_threshold` (or the configured default if there is none). Falls back to
    /// `timeout` if output never settles.
    Wait { timeout: u64, idle_threshold: Option<u64> },
    /// Placeholder for piped stdin content. Resolved to `Bytes` before execution.
    Stdin,
}

/// What a group stands for.
#[verifier::ext_equal]
pub enum KeyGroupView {
    Bytes(Seq<u8>),
    Sleep(u64),
    Wait { timeout: u64, idle_threshold: Option<u64> },
    Stdin,
}

impl View for KeyGroup {
    type V = KeyGroupView;

    open spec fn view(&self) -> KeyGroupView {
        match *self {
            KeyGroup::Bytes(b) => KeyGroupView::Bytes(b@),
            KeyGroup::Sleep(ms) => KeyGroupView::Sleep(ms),
            KeyGroup::Wait { timeout, idle_threshold } => KeyGroupView::Wait {
                timeout,
                idle_threshold,
            },
            KeyGroup::Stdin => KeyGroupView::Stdin,
        }
    }
}

impl Clone for KeyGroup {
    fn clone(&self) -> (r: KeyGroup)
        ensures
            r@ == self@,
    {
        match self {
            KeyGroup::Bytes(b) => KeyGroup::Bytes(b.clone()),
            KeyGroup::Sleep(ms) => KeyGroup::Sleep(*ms),
            KeyGroup::Wait { timeout, idle_threshold } => KeyGroup::Wait {
                timeout: *timeout,
                idle_threshold: *idle_threshold,
            },
            KeyGroup::Stdin => KeyGroup::Stdin,
        }
    }
}

/// What a list of groups stands for.
pub open spec fn views(groups: Seq<KeyGroup>) -> Seq<KeyGroupView> {
    groups.map_values(|g: KeyGroup| g@)
}

// === Modifier encoding ===

/// The xterm modifier parameter: Shift counts 1, Alt 2 and Ctrl 4, on top of 1.
pub open spec fn modifier(ctrl: bool, shift: bool, alt: bool) -> nat {
    (1 + (if shift {
        1nat
    } else {
        0
    }) + (if alt {
        2nat
    } else {
        0
    }) + (if ctrl {
        4nat
    } else {
        0
    })) as nat
}

/// Calculate the xterm modifier parameter.
///
/// | Modifier Combo       | Value |
/// |----------------------|-------|
/// | (none)               | 1     |
/// | Shift                | 2     |
/// | Alt                  | 3     |
/// | Shift+Alt            | 4     |
/// | Ctrl                 | 5     |
/// | Ctrl+Shift           | 6     |
/// | Ctrl+Alt             | 7     |
/// | Ctrl+Shift+Alt       | 8     |
pub fn xterm_modifier(ctrl: bool, shift: bool, alt: bool) -> (m: u8)
    ensures
        m == modifier(ctrl, shift, alt),
        1 <= m <= 8,
{
    1 + (if shift {
        1u8
    } else {
        0
    }) + (if alt {
        2u8
    } else {
        0
    }) + (if ctrl {
        4u8
    } else {
        0
    })
}

/// The ASCII digit of a number below ten.
pub open spec fn digit_byte(n: nat) -> u8 {
    (48 + n) as u8
}

/// The Escape byte, in front of a key that Alt is held with.
pub open spec fn alt_prefix(alt: bool) -> Seq<u8> {
    if alt {
        seq![0x1bu8]
    } else {
        Seq::empty()
    }
}

/// A CSI sequence with its modifier parameter, where there is one: `ESC [ A` becomes
/// `ESC [ 1 ; 5 A`, and `ESC [ 3 ~` becomes `ESC [ 3 ; 5 ~`.
pub open spec fn csi_key(suffix: Seq<u8>, modifier: nat) -> Seq<u8> {
    let csi = seq![0x1bu8, 0x5bu8];
    if modifier <= 1 {
        csi + suffix
    } else if suffix.len() > 1 && suffix.last() == 0x7eu8 {
        csi + suffix.drop_last() + seq![0x3bu8, digit_byte(modifier), 0x7eu8]
    } else {
        csi + seq![0x31u8, 0x3bu8, digit_byte(modifier)] + suffix
    }
}

/// F1 to F4: `ESC O P` without modifiers, `ESC [ 1 ; 5 P` with them.
pub open spec fn ss3_or_csi(last: u8, modifier: nat) -> Seq<u8> {
    if modifier <= 1 {
        seq![0x1bu8, 0x4fu8, last]
    } else {
        seq![0x1bu8, 0x5bu8, 0x31u8, 0x3bu8, digit_byte(modifier), last]
    }
}

/// The ASCII digits of a number.
pub open spec fn decimal_bytes(n: nat) -> Seq<u8>
    decreases n,
{
    if n < 10 {
        seq![digit_byte(n)]
    } else {
        decimal_bytes(n / 10).push(digit_byte(n % 10))
    }
}

/// `ESC [ N ~` without modifiers, `ESC [ N ; 5 ~` with them.
pub open spec fn csi_tilde(num: nat, modifier: nat) -> Seq<u8> {
    csi_key(decimal_bytes(num).push(0x7eu8), modifier)
}

/// The ASCII digits of a number.
pub fn number_bytes(n: usize) -> (b: Vec<u8>)
    ensures
        b@ == decimal_bytes(n as nat),
    decreases n,
{
    let mut b: Vec<u8> = if n >= 10 {
        number_bytes(n / 10)
    } else {
        Vec::new()
    };
    b.push(48 + (n % 10) as u8);
    proof {
        assert(b@ =~= decimal_bytes(n as nat));
    }
    b
}

/// Encode a simple key (no CSI sequence) with its Alt prefix.
pub fn encode_simple_key(base: u8, alt: bool) -> (bytes: Vec<u8>)
    ensures
        bytes@ == alt_prefix(alt).push(base),
{
    let mut bytes: Vec<u8> = Vec::new();
    if alt {
        bytes.push(0x1b);
    }
    bytes.push(base);
    proof {
        assert(bytes@ =~= alt_prefix(alt).push(base));
    }
    bytes
}

/// Encode a CSI key sequence with optional modifier parameter.
///
/// `suffix` is the end of the sequence. For tilde-terminated sequences like Delete (`3~`), the
/// number is part of it.
pub fn encode_csi_key(suffix: &[u8], ctrl: bool, shift: bool, alt: bool) -> (bytes: Vec<u8>)
    ensures
        bytes@ == csi_key(suffix@, modifier(ctrl, shift, alt)),
{
    let m = xterm_modifier(ctrl, shift, alt);
    let mut bytes: Vec<u8> = vec![0x1b, 0x5b];
    if m > 1 {
        if suffix.len() > 1 && suffix[suffix.len() - 1] == 0x7e {
            let number = slice_subrange(suffix, 0, suffix.len() - 1);
            bytes.extend_from_slice(number);
            bytes.push(0x3b);
            bytes.push(48 + m);
            bytes.push(0x7e);
            proof {
                assert(number@ =~= suffix@.drop_last());
                assert(bytes@ =~= csi_key(suffix@, modifier(ctrl, shift, alt)));
            }
        } else {
            bytes.push(0x31);
            bytes.push(0x3b);
            bytes.push(48 + m);
            bytes.extend_from_slice(suffix);
            proof {
                assert(bytes@ =~= csi_key(suffix@, modifier(ctrl, shift, alt)));
            }
        }
    } else {
        bytes.extend_from_slice(suffix);
        proof {
            assert(bytes@ =~= csi_key(suffix@, modifier(ctrl, shift, alt)));
        }
    }
    bytes
}

/// Encode F1-F4, which use SS3 when unmodified, CSI when modified.
pub fn encode_ss3_or_csi(last: u8, ctrl: bool, shift: bool, alt: bool) -> (bytes: Vec<u8>)
    ensures
        bytes@ == ss3_or_csi(last, modifier(ctrl, shift, alt)),
{
    let m = xterm_modifier(ctrl, shift, alt);
    if m > 1 {
        vec![0x1b, 0x5b, 0x31, 0x3b, 48 + m, last]
    } else {
        vec![0x1b, 0x4f, last]
    }
}

/// Encode F5-F12 style keys: `ESC [ N ~` or `ESC [ N ; modifier ~`.
pub fn encode_csi_tilde(num: u8, ctrl: bool, shift: bool, alt: bool) -> (bytes: Vec<u8>)
    ensures
        bytes@ == csi_tilde(num as nat, modifier(ctrl, shift, alt)),
{
    let mut suffix = number_bytes(num as usize);
    suffix.push(0x7e);
    encode_csi_key(suffix.as_slice(), ctrl, shift, alt)
}

// === Character keys ===

pub open spec fn is_ascii(c: char) -> bool {
    c <= '\u{7f}'
}

pub open spec fn is_upper(c: char) -> bool {
    'A' <= c <= 'Z'
}

pub open spec fn is_lower(c: char) -> bool {
    'a' <= c <= 'z'
}

/// The control byte of a character: that of a letter is its place in the alphabet.
pub open spec fn control_byte(c: char) -> Option<u8> {
    if is_lower(c) {
        Some((c as u8 - 96) as u8)
    } else if is_upper(c) {
        Some((c as u8 - 64) as u8)
    } else if c == '[' {
        Some(0x1b)
    } else if c == '\\' {
        Some(0x1c)
    } else if c == ']' {
        Some(0x1d)
    } else if c == '^' {
        Some(0x1e)
    } else if c == '_' {
        Some(0x1f)
    } else if c == '@' {
        Some(0x00)
    } else {
        None
    }
}

/// The byte of a character, a capital letter where Shift is held.
pub open spec fn shifted_byte(c: char, shift: bool) -> u8 {
    if shift && is_lower(c) {
        (c as u8 - 32) as u8
    } else {
        c as u8
    }
}

/// The bytes of a character with modifiers. Shift is ignored where Ctrl is held.
pub open spec fn char_key(c: char, ctrl: bool, shift: bool, alt: bool) -> Result<
    Seq<u8>,
    Seq<char>,
> {
    if !is_ascii(c) {
        Err("non-ASCII character '"@ + seq![c] + "' not supported in key expressions"@)
    } else if !ctrl {
        Ok(alt_prefix(alt).push(shifted_byte(c, shift)))
    } else {
        match control_byte(c) {
            Some(b) => Ok(alt_prefix(alt).push(b)),
            None => Err("ctrl+"@ + seq![c] + " is not a valid control character combination"@),
        }
    }
}

fn char_text(c: char) -> (s: String)
    ensures
        s@ == seq![c],
{
    let mut s = String::new();
    s.push(c);
    proof {
        assert(s@ =~= seq![c]);
    }
    s
}

fn control_of(c: char) -> (r: Option<u8>)
    ensures
        r == control_byte(c),
{
    if 'a' <= c && c <= 'z' {
        Some(c as u8 - 96)
    } else if 'A' <= c && c <= 'Z' {
        Some(c as u8 - 64)
    } else if c == '[' {
        Some(0x1b)
    } else if c == '\\' {
        Some(0x1c)
    } else if c == ']' {
        Some(0x1d)
    } else if c == '^' {
        Some(0x1e)
    } else if c == '_' {
        Some(0x1f)
    } else if c == '@' {
        Some(0x00)
    } else {
        None
    }
}

/// Encode a single character key with modifiers.
pub fn encode_char_key(ch: char, ctrl: bool, shift: bool, alt: bool) -> (r: Result<
    Vec<u8>,
    String,
>)
    ensures
        match char_key(ch, ctrl, shift, alt) {
            Ok(b) => r matches Ok(v) && v@ == b,
            Err(e) => r matches Err(m) && m@ == e,
        },
{
    if ch > '\u{7f}' {
        return Err(
            concat3(
                "non-ASCII character '",
                char_text(ch).as_str(),
                "' not supported in key expressions",
            ),
        );
    }
    if ctrl {
        return match control_of(ch) {
            Some(b) => Ok(encode_simple_key(b, alt)),
            None => Err(
                concat3(
                    "ctrl+",
                    char_text(ch).as_str(),
                    " is not a valid control character combination",
                ),
            ),
        };
    }
    let byte: u8 = if shift && 'a' <= ch && ch <= 'z' {
        ch as u8 - 32
    } else {
        ch as u8
    };
    Ok(encode_simple_key(byte, alt))
}

// === Named keys ===

/// The bytes of a named key with modifiers.
pub open spec fn named_key(name: Seq<char>, ctrl: bool, shift: bool, alt: bool) -> Option<
    Seq<u8>,
> {
    let m = modifier(ctrl, shift, alt);
    if name == "cr"@ || name == "enter"@ {
        Some(alt_prefix(alt).push(0x0du8))
    } else if name == "esc"@ {
        Some(seq![0x1bu8])
    } else if name == "tab"@ {
        Some(
            if shift && !ctrl && !alt {
                seq![0x1bu8, 0x5bu8, 0x5au8]
            } else {
                alt_prefix(alt).push(0x09u8)
            },
        )
    } else if name == "bs"@ || name == "backspace"@ {
        Some(alt_prefix(alt).push(0x7fu8))
    } else if name == "space"@ {
        Some(alt_prefix(alt).push(0x20u8))
    } else if name == "nul"@ {
        Some(seq![0x00u8])
    } else if name == "del"@ || name == "delete"@ {
        Some(csi_key(seq![0x33u8, 0x7eu8], m))
    } else if name == "up"@ {
        Some(csi_key(seq![0x41u8], m))
    } else if name == "down"@ {
        Some(csi_key(seq![0x42u8], m))
    } else if name == "right"@ {
        Some(csi_key(seq![0x43u8], m))
    } else if name == "left"@ {
        Some(csi_key(seq![0x44u8], m))
    } else if name == "home"@ {
        Some(csi_key(seq![0x48u8], m))
    } else if name == "end"@ {
        Some(csi_key(seq![0x46u8], m))
    } else if name == "insert"@ {
        Some(csi_key(seq![0x32u8, 0x7eu8], m))
    } else if name == "pageup"@ {
        Some(csi_key(seq![0x35u8, 0x7eu8], m))
    } else if name == "pagedown"@ {
        Some(csi_key(seq![0x36u8, 0x7eu8], m))
    } else if name == "f1"@ {
        Some(ss3_or_csi(0x50u8, m))
    } else if name == "f2"@ {
        Some(ss3_or_csi(0x51u8, m))
    } else if name == "f3"@ {
        Some(ss3_or_csi(0x52u8, m))
    } else if name == "f4"@ {
        Some(ss3_or_csi(0x53u8, m))
    } else if name == "f5"@ {
        Some(csi_tilde(15, m))
    } else if name == "f6"@ {
        Some(csi_tilde(17, m))
    } else if name == "f7"@ {
        Some(csi_tilde(18, m))
    } else if name == "f8"@ {
        Some(csi_tilde(19, m))
    } else if name == "f9"@ {
        Some(csi_tilde(20, m))
    } else if name == "f10"@ {
        Some(csi_tilde(21, m))
    } else if name == "f11"@ {
        Some(csi_tilde(23, m))
    } else if name == "f12"@ {
        Some(csi_tilde(24, m))
    } else {
        None
    }
}

fn encode_named_key(name: &str, ctrl: bool, shift: bool, alt: bool) -> (r: Option<Vec<u8>>)
    ensures
        match named_key(name@, ctrl, shift, alt) {
            Some(b) => r matches Some(v) && v@ == b,
            None => r is None,
        },
{
    if name.eq("cr") || name.eq("enter") {
        Some(encode_simple_key(0x0d, alt))
    } else if name.eq("esc") {
        Some(vec![0x1b])
    } else if name.eq("tab") {
        Some(
            if shift && !ctrl && !alt {
                vec![0x1b, 0x5b, 0x5a]
            } else {
                encode_simple_key(0x09, alt)
            },
        )
    } else if name.eq("bs") || name.eq("backspace") {
        Some(encode_simple_key(0x7f, alt))
    } else if name.eq("space") {
        Some(encode_simple_key(0x20, alt))
    } else if name.eq("nul") {
        Some(vec![0x00])
    } else if name.eq("del") || name.eq("delete") {
        Some(encode_csi_key(vec![0x33, 0x7e].as_slice(), ctrl, shift, alt))
    } else if name.eq("up") {
        Some(encode_csi_key(vec![0x41].as_slice(), ctrl, shift, alt))
    } else if name.eq("down") {
        Some(encode_csi_key(vec![0x42].as_slice(), ctrl, shift, alt))
    } else if name.eq("right") {
        Some(encode_csi_key(vec![0x43].as_slice(), ctrl, shift, alt))
    } else if name.eq("left") {
        Some(encode_csi_key(vec![0x44].as_slice(), ctrl, shift, alt))
    } else if name.eq("home") {
        Some(encode_csi_key(vec![0x48].as_slice(), ctrl, shift, alt))
    } else if name.eq("end") {
        Some(encode_csi_key(vec![0x46].as_slice(), ctrl, shift, alt))
    } else if name.eq("insert") {
        Some(encode_csi_key(vec![0x32, 0x7e].as_slice(), ctrl, shift, alt))
    } else if name.eq("pageup") {
        Some(encode_csi_key(vec![0x35, 0x7e].as_slice(), ctrl, shift, alt))
    } else if name.eq("pagedown") {
        Some(encode_csi_key(vec![0x36, 0x7e].as_slice(), ctrl, shift, alt))
    } else if name.eq("f1") {
        Some(encode_ss3_or_csi(0x50, ctrl, shift, alt))
    } else if name.eq("f2") {
        Some(encode_ss3_or_csi(0x51, ctrl, shift, alt))
    } else if name.eq("f3") {
        Some(encode_ss3_or_csi(0x52, ctrl, shift, alt))
    } else if name.eq("f4") {
        Some(encode_ss3_or_csi(0x53, ctrl, shift, alt))
    } else if name.eq("f5") {
        Some(encode_csi_tilde(15, ctrl, shift, alt))
    } else if name.eq("f6") {
        Some(encode_csi_tilde(17, ctrl, shift, alt))
    } else if name.eq("f7") {
        Some(encode_csi_tilde(18, ctrl, shift, alt))
    } else if name.eq("f8") {
        Some(encode_csi_tilde(19, ctrl, shift, alt))
    } else if name.eq("f9") {
        Some(encode_csi_tilde(20, ctrl, shift, alt))
    } else if name.eq("f10") {
        Some(encode_csi_tilde(21, ctrl, shift, alt))
    } else if name.eq("f11") {
        Some(encode_csi_tilde(23, ctrl, shift, alt))
    } else if name.eq("f12") {
        Some(encode_csi_tilde(24, ctrl, shift, alt))
    } else {
        None
    }
}

/// The bytes of a key with modifiers: a single ASCII character stands for itself, a longer text
/// is a name.
pub open spec fn key_bytes(name: Seq<char>, ctrl: bool, shift: bool, alt: bool) -> Result<
    Seq<u8>,
    Seq<char>,
> {
    if name.len() == 1 && is_ascii(name[0]) {
        char_key(name[0], ctrl, shift, alt)
    } else {
        match named_key(name, ctrl, shift, alt) {
            Some(b) => Ok(b),
            None => Err("unknown key name: '"@ + name + "'"@),
        }
    }
}

/// Encode a key name with modifiers into terminal bytes.
pub fn encode_key(name: &str, ctrl: bool, shift: bool, alt: bool) -> (r: Result<Vec<u8>, String>)
    ensures
        match key_bytes(name@, ctrl, shift, alt) {
            Ok(b) => r matches Ok(v) && v@ == b,
            Err(e) => r matches Err(m) && m@ == e,
        },
{
    let v = chars_of(name);
    if v.len() == 1 && v[0] <= '\u{7f}' {
        return encode_char_key(v[0], ctrl, shift, alt);
    }
    match encode_named_key(name, ctrl, shift, alt) {
        Some(b) => Ok(b),
        None => Err(concat3("unknown key name: '", name, "'")),
    }
}

// === Key expressions ===

/// Reads the modifiers in front of a key name. Each may occur once.
pub open spec fn modifiers(
    expr: Seq<char>,
    rest: Seq<char>,
    ctrl: bool,
    shift: bool,
    alt: bool,
) -> Result<(bool, bool, bool, Seq<char>), Seq<char>>
    decreases rest.len(),
{
    proof {
        reveal_strlit("c-");
        reveal_strlit("s-");
        reveal_strlit("a-");
    }
    if "c-"@.is_prefix_of(rest) {
        if ctrl {
            Err("duplicate ctrl modifier in: "@ + expr)
        } else {
            modifiers(expr, rest.skip("c-"@.len() as int), true, shift, alt)
        }
    } else if "s-"@.is_prefix_of(rest) {
        if shift {
            Err("duplicate shift modifier in: "@ + expr)
        } else {
            modifiers(expr, rest.skip("s-"@.len() as int), ctrl, true, alt)
        }
    } else if "a-"@.is_prefix_of(rest) {
        if alt {
            Err("duplicate alt modifier in: "@ + expr)
        } else {
            modifiers(expr, rest.skip("a-"@.len() as int), ctrl, shift, true)
        }
    } else {
        Ok((ctrl, shift, alt, rest))
    }
}

/// A duration whose error names what it was for.
pub open spec fn duration_for(what: Seq<char>, s: Seq<char>) -> Result<u64, Seq<char>> {
    match duration(s) {
        Ok(ms) => Ok(ms),
        Err(e) => Err(what + e),
    }
}

/// A wait: a timeout, and an idle threshold behind the first colon where there is one.
pub open spec fn wait_group(s: Seq<char>) -> Result<KeyGroupView, Seq<char>> {
    let n = position(s, ':') as int;
    match duration_for("invalid wait timeout: "@, s.take(n)) {
        Err(e) => Err(e),
        Ok(timeout) => if n == s.len() {
            Ok(KeyGroupView::Wait { timeout, idle_threshold: None })
        } else {
            match duration_for("invalid idle threshold: "@, s.skip(n + 1)) {
                Err(e) => Err(e),
                Ok(idle) => Ok(KeyGroupView::Wait { timeout, idle_threshold: Some(idle) }),
            }
        },
    }
}

/// A key with its modifiers. Errors show the given text.
pub open spec fn read_key(shown: Seq<char>, expr: Seq<char>) -> Result<KeyGroupView, Seq<char>> {
    match modifiers(shown, expr, false, false, false) {
        Err(e) => Err(e),
        Ok((ctrl, shift, alt, name)) => if name.len() == 0 {
            Err("missing key name in: "@ + shown)
        } else {
            match key_bytes(name, ctrl, shift, alt) {
                Err(e) => Err(e),
                Ok(b) => Ok(KeyGroupView::Bytes(b)),
            }
        },
    }
}

/// A key with its modifiers.
pub open spec fn key_group(expr: Seq<char>) -> Result<KeyGroupView, Seq<char>> {
    read_key(expr, expr)
}

/// What stands between braces.
pub open spec fn key_expression(expr: Seq<char>) -> Result<KeyGroupView, Seq<char>> {
    if expr == "stdin"@ {
        Ok(KeyGroupView::Stdin)
    } else if expr == "sleep"@ {
        Err("sleep requires a duration, e.g. {sleep:500ms}"@)
    } else if expr == "wait"@ {
        Err(
            "wait requires a duration and is used to wait for terminal output to settle, e.g. {wait:5s}"@,
        )
    } else if "sleep:"@.is_prefix_of(expr) {
        match duration_for("invalid sleep: "@, expr.skip("sleep:"@.len() as int)) {
            Ok(ms) => Ok(KeyGroupView::Sleep(ms)),
            Err(e) => Err(e),
        }
    } else if "wait:"@.is_prefix_of(expr) {
        wait_group(expr.skip("wait:"@.len() as int))
    } else {
        key_group(expr)
    }
}

/// Whether a result of parsing is the one that is asked for.
pub open spec fn parsed_as(r: Result<KeyGroup, String>, v: Result<KeyGroupView, Seq<char>>) -> bool {
    match v {
        Ok(g) => r matches Ok(k) && k@ == g,
        Err(e) => r matches Err(m) && m@ == e,
    }
}

fn parse_duration_for(what: &str, s: &[char]) -> (r: Result<u64, String>)
    ensures
        match duration_for(what@, s@) {
            Ok(ms) => r == Ok::<u64, String>(ms),
            Err(e) => r matches Err(m) && m@ == e,
        },
{
    match parse_duration(string_of(s).as_str()) {
        Ok(ms) => Ok(ms),
        Err(e) => Err(concat(what, e.as_str())),
    }
}

fn parse_wait(s: &[char]) -> (r: Result<KeyGroup, String>)
    ensures
        parsed_as(r, wait_group(s@)),
{
    let n = position_of(s, ':');
    let first = slice_subrange(s, 0, n);
    proof {
        assert(first@ =~= s@.take(n as int));
    }
    let timeout = match parse_duration_for("invalid wait timeout: ", first) {
        Ok(ms) => ms,
        Err(e) => {
            return Err(e);
        },
    };
    if n == s.len() {
        return Ok(KeyGroup::Wait { timeout, idle_threshold: None });
    }
    let second = slice_subrange(s, n + 1, s.len());
    proof {
        assert(second@ =~= s@.skip(n + 1));
    }
    match parse_duration_for("invalid idle threshold: ", second) {
        Ok(idle) => Ok(KeyGroup::Wait { timeout, idle_threshold: Some(idle) }),
        Err(e) => Err(e),
    }
}

fn parse_key(expr: &str, v: &[char]) -> (r: Result<KeyGroup, String>)
    requires
        v@ == expr@,
    ensures
        parsed_as(r, key_group(expr@)),
{
    let mut ctrl = false;
    let mut shift = false;
    let mut alt = false;
    let mut rest = v;
    let mut more = true;
    proof {
        reveal_strlit("c-");
        reveal_strlit("s-");
        reveal_strlit("a-");
    }
    while more
        invariant
            modifiers(expr@, expr@, false, false, false) == modifiers(
                expr@,
                rest@,
                ctrl,
                shift,
                alt,
            ),
            "c-"@.len() == 2,
            "s-"@.len() == 2,
            "a-"@.len() == 2,
            !more ==> modifiers(expr@, rest@, ctrl, shift, alt) == Ok::<
                (bool, bool, bool, Seq<char>),
                Seq<char>,
            >((ctrl, shift, alt, rest@)),
        decreases
            rest@.len(),
            if more {
                1nat
            } else {
                0nat
            },
    {
        if let Some(r) = strip_prefix(rest, "c-") {
            if ctrl {
                return Err(concat("duplicate ctrl modifier in: ", expr));
            }
            ctrl = true;
            rest = r;
        } else if let Some(r) = strip_prefix(rest, "s-") {
            if shift {
                return Err(concat("duplicate shift modifier in: ", expr));
            }
            shift = true;
            rest = r;
        } else if let Some(r) = strip_prefix(rest, "a-") {
            if alt {
                return Err(concat("duplicate alt modifier in: ", expr));
            }
            alt = true;
            rest = r;
        } else {
            more = false;
        }
    }
    if rest.len() == 0 {
        return Err(concat("missing key name in: ", expr));
    }
    match encode_key(string_of(rest).as_str(), ctrl, shift, alt) {
        Ok(b) => Ok(KeyGroup::Bytes(b)),
        Err(e) => Err(e),
    }
}

/// Parse a key expression (the part inside `{...}`) into a `KeyGroup`.
pub fn parse_key_expression(expr: &str) -> (r: Result<KeyGroup, String>)
    ensures
        parsed_as(r, key_expression(expr@)),
{
    if expr.eq("stdin") {
        return Ok(KeyGroup::Stdin);
    }
    if expr.eq("sleep") {
        return Err(text("sleep requires a duration, e.g. {sleep:500ms}"));
    }
    if expr.eq("wait") {
        return Err(
            text(
                "wait requires a duration and is used to wait for terminal output to settle, e.g. {wait:5s}",
            ),
        );
    }
    let v = chars_of(expr);
    if let Some(rest) = strip_prefix(v.as_slice(), "sleep:") {
        return match parse_duration_for("invalid sleep: ", rest) {
            Ok(ms) => Ok(KeyGroup::Sleep(ms)),
            Err(e) => Err(e),
        };
    }
    if let Some(rest) = strip_prefix(v.as_slice(), "wait:") {
        return parse_wait(rest);
    }
    parse_key(expr, v.as_slice())
}

// === Arguments ===

/// Two lists of groups, one after the other, with the bytes that meet in one group.
#[verifier::opaque]
pub open spec fn glue(a: Seq<KeyGroupView>, b: Seq<KeyGroupView>) -> Seq<KeyGroupView> {
    if a.len() > 0 && b.len() > 0 && a.last() is Bytes && b[0] is Bytes {
        a.drop_last().push(KeyGroupView::Bytes(a.last()->Bytes_0 + b[0]->Bytes_0)) + b.skip(1)
    } else {
        a + b
    }
}

/// A list of groups with adjacent bytes in one group.
pub open spec fn merged(groups: Seq<KeyGroupView>) -> Seq<KeyGroupView>
    decreases groups.len(),
{
    if groups.len() == 0 {
        Seq::empty()
    } else {
        glue(merged(groups.drop_last()), seq![groups.last()])
    }
}

/// What stands at the start of an argument: its group and how many characters it takes.
pub open spec fn token(s: Seq<char>) -> Result<(KeyGroupView, nat), Seq<char>> {
    if s[0] == '{' {
        let n = position(s.skip(1), '}');
        if s.len() > 1 && s[1] == '{' {
            Ok((KeyGroupView::Bytes(encode_utf8(seq!['{'])), 2))
        } else if n == s.len() - 1 {
            Err("unclosed key expression: {"@ + s.skip(1))
        } else if n == 0 {
            Err("empty key expression: {}"@)
        } else {
            match key_expression(s.skip(1).take(n as int)) {
                Ok(g) => Ok((g, n + 2)),
                Err(e) => Err(e),
            }
        }
    } else if s[0] == '}' {
        if s.len() > 1 && s[1] == '}' {
            Ok((KeyGroupView::Bytes(encode_utf8(seq!['}'])), 2))
        } else {
            Err("unexpected '}' without matching '{'"@)
        }
    } else {
        Ok((KeyGroupView::Bytes(encode_utf8(seq![s[0]])), 1))
    }
}

/// The groups of an argument, or the first thing that is wrong with it.
pub open spec fn arg_groups(s: Seq<char>) -> Result<Seq<KeyGroupView>, Seq<char>>
    decreases s.len(),
{
    if s.len() == 0 {
        Ok(Seq::empty())
    } else {
        proof {
            lemma_position(s.skip(1), '}');
        }
        match token(s) {
            Err(e) => Err(e),
            Ok((g, n)) => match arg_groups(s.skip(n as int)) {
                Err(e) => Err(e),
                Ok(rest) => Ok(glue(seq![g], rest)),
            },
        }
    }
}

/// The groups of all arguments, one argument after the other.
pub open spec fn args_groups(args: Seq<Seq<char>>) -> Result<Seq<KeyGroupView>, Seq<char>>
    decreases args.len(),
{
    if args.len() == 0 {
        Ok(Seq::empty())
    } else {
        match args_groups(args.drop_last()) {
            Err(e) => Err(e),
            Ok(before) => match arg_groups(args.last()) {
                Err(e) => Err(e),
                Ok(g) => Ok(before + g),
            },
        }
    }
}

/// Text that is sent as it stands.
pub open spec fn literal_group(s: Seq<char>) -> Seq<KeyGroupView> {
    if s.len() == 0 {
        Seq::empty()
    } else {
        seq![KeyGroupView::Bytes(encode_utf8(s))]
    }
}

pub proof fn lemma_glue_associative(
    a: Seq<KeyGroupView>,
    b: Seq<KeyGroupView>,
    c: Seq<KeyGroupView>,
)
    ensures
        glue(glue(a, b), c) == glue(a, glue(b, c)),
{
    reveal(glue);
    if b.len() == 0 {
        assert(glue(a, b) =~= a);
        assert(glue(b, c) =~= c);
    } else if a.len() > 0 && c.len() > 0 {
        assert(glue(glue(a, b), c) =~~= glue(a, glue(b, c)));
    } else {
        assert(glue(glue(a, b), c) =~= glue(a, glue(b, c)));
    }
}

pub proof fn lemma_glue_literal(s: Seq<char>, c: char)
    ensures
        glue(literal_group(s), seq![KeyGroupView::Bytes(encode_utf8(seq![c]))]) == literal_group(
            s.push(c),
        ),
{
    reveal(glue);
    assert(s.push(c) =~= s + seq![c]);
    lemma_utf8_concat(s, seq![c]);
    if s.len() == 0 {
        assert(s.push(c) =~= seq![c]);
    }
    assert(glue(literal_group(s), seq![KeyGroupView::Bytes(encode_utf8(seq![c]))])
        =~~= literal_group(s.push(c)));
}

/// Appends a group, in the last group where both hold bytes.
fn push_merged(merged: &mut Vec<KeyGroup>, group: KeyGroup)
    ensures
        views(final(merged)@) == glue(views(old(merged)@), seq![group@]),
{
    let ghost before = merged@;
    match merged.pop() {
        None => {
            merged.push(group);
        },
        Some(last) => match (last, group) {
            (KeyGroup::Bytes(mut existing), KeyGroup::Bytes(new)) => {
                existing.extend_from_slice(new.as_slice());
                merged.push(KeyGroup::Bytes(existing));
                proof {
                    assert(existing@ =~= before.last()->Bytes_0@ + new@);
                }
            },
            (last, group) => {
                merged.push(last);
                merged.push(group);
            },
        },
    }
    proof {
        reveal(glue);
        assert(views(merged@) =~= glue(views(before), seq![group@]));
    }
}

/// Merge adjacent `Bytes` groups into single groups.
pub fn merge_bytes(groups: Vec<KeyGroup>) -> (r: Vec<KeyGroup>)
    ensures
        views(r@) == merged(views(groups@)),
{
    let mut r: Vec<KeyGroup> = Vec::new();
    let mut groups = groups;
    let ghost all = groups@;
    proof {
        assert(views(all).take(0) =~= Seq::empty());
        assert(views(r@) =~= Seq::empty());
    }
    let n: usize = groups.len();
    for i in 0..n
        invariant
            n == groups@.len() == all.len(),
            forall|j: int| i <= j < n ==> #[trigger] groups@[j] == all[j],
            views(r@) == merged(views(all).take(i as int)),
    {
        let mut group = KeyGroup::Stdin;
        std::mem::swap(&mut group, &mut groups[i]);
        proof {
            assert(views(all).take(i + 1).drop_last() =~= views(all).take(i as int));
            assert(group == all[i as int]);
        }
        push_merged(&mut r, group);
    }
    proof {
        assert(views(all).take(n as int) =~= views(all));
    }
    r
}

/// A result with groups in front of it.
spec fn prefixed(
    before: Seq<KeyGroupView>,
    r: Result<Seq<KeyGroupView>, Seq<char>>,
) -> Result<Seq<KeyGroupView>, Seq<char>> {
    match r {
        Ok(g) => Ok(glue(before, g)),
        Err(e) => Err(e),
    }
}

proof fn lemma_prefixed_step(before: Seq<KeyGroupView>, s: Seq<char>, g: KeyGroupView, n: nat)
    requires
        s.len() > 0,
        token(s) == Ok::<(KeyGroupView, nat), Seq<char>>((g, n)),
    ensures
        prefixed(before, arg_groups(s)) == prefixed(
            glue(before, seq![g]),
            arg_groups(s.skip(n as int)),
        ),
{
    if let Ok(rest) = arg_groups(s.skip(n as int)) {
        lemma_glue_associative(before, seq![g], rest);
    }
}

proof fn lemma_literal_step(
    done: Seq<KeyGroupView>,
    before: Seq<char>,
    rest: Seq<char>,
    c: char,
    n: nat,
)
    requires
        rest.len() > 0,
        token(rest) == Ok::<(KeyGroupView, nat), Seq<char>>(
            (KeyGroupView::Bytes(encode_utf8(seq![c])), n),
        ),
    ensures
        prefixed(glue(done, literal_group(before)), arg_groups(rest)) == prefixed(
            glue(done, literal_group(before.push(c))),
            arg_groups(rest.skip(n as int)),
        ),
{
    let g = KeyGroupView::Bytes(encode_utf8(seq![c]));
    lemma_glue_literal(before, c);
    lemma_glue_associative(done, literal_group(before), seq![g]);
    lemma_prefixed_step(glue(done, literal_group(before)), rest, g, n);
}

pub proof fn lemma_glue_nothing(groups: Seq<KeyGroupView>)
    ensures
        glue(groups, Seq::empty()) == groups,
        glue(Seq::empty(), groups) == groups,
{
    reveal(glue);
    assert(glue(groups, Seq::empty()) =~= groups);
    assert(glue(Seq::empty(), groups) =~= groups);
}

fn push_group(groups: &mut Vec<KeyGroup>, group: KeyGroup)
    ensures
        merged(views(final(groups)@)) == glue(merged(views(old(groups)@)), seq![group@]),
{
    let ghost before = groups@;
    groups.push(group);
    proof {
        assert(views(groups@).drop_last() =~= views(before));
    }
}

/// Appends the text that was read so far, if there is any.
fn flush_literal(groups: &mut Vec<KeyGroup>, literal: &str)
    ensures
        merged(views(final(groups)@)) == glue(
            merged(views(old(groups)@)),
            literal_group(literal@),
        ),
{
    if literal.is_empty() {
        proof {
            lemma_glue_nothing(merged(views(groups@)));
        }
    } else {
        push_group(groups, KeyGroup::Bytes(bytes_of(literal)));
    }
}

/// The key expression that a text starts with, and how many characters it takes.
fn parse_braced(v: &[char]) -> (r: Result<(KeyGroup, usize), String>)
    requires
        v@.len() > 0,
        v@[0] == '{',
        v@.len() > 1 ==> v@[1] != '{',
    ensures
        match token(v@) {
            Ok((g, n)) => r matches Ok(x) && x.0@ == g && x.1 == n && n <= v@.len(),
            Err(e) => r matches Err(m) && m@ == e,
        },
{
    let tail = slice_subrange(v, 1, v.len());
    proof {
        assert(tail@ =~= v@.skip(1));
    }
    let n = position_of(tail, '}');
    if n == tail.len() {
        return Err(concat("unclosed key expression: {", string_of(tail).as_str()));
    }
    if n == 0 {
        return Err(text("empty key expression: {}"));
    }
    let expr = slice_subrange(tail, 0, n);
    proof {
        assert(expr@ =~= v@.skip(1).take(n as int));
    }
    match parse_key_expression(string_of(expr).as_str()) {
        Ok(g) => Ok((g, n + 2)),
        Err(e) => Err(e),
    }
}

/// Parse a single CLI argument into key groups.
///
/// An argument can contain a mix of literal text and key expressions:
/// - `"hello{cr}"` is one group of bytes (merged within one argument)
/// - `"{c-c}"` is the byte 0x03
/// - `"{sleep:500}"` is a sleep of 500 ms
/// - `"{{cr}}"` is the text `{cr}`
pub fn parse_arg(arg: &str) -> (r: Result<Vec<KeyGroup>, String>)
    ensures
        match arg_groups(arg@) {
            Ok(g) => r matches Ok(v) && views(v@) == g,
            Err(e) => r matches Err(m) && m@ == e,
        },
{
    let v = chars_of(arg);
    let mut groups: Vec<KeyGroup> = Vec::new();
    let mut literal = String::new();
    let mut i: usize = 0;
    proof {
        assert(v@.skip(0) =~= v@);
        assert(views(groups@) =~= Seq::empty());
        lemma_glue_nothing(Seq::empty());
        if let Ok(g) = arg_groups(v@) {
            lemma_glue_nothing(g);
        }
    }
    while i < v.len()
        invariant
            i <= v@.len(),
            v@ == arg@,
            arg_groups(arg@) == prefixed(
                glue(merged(views(groups@)), literal_group(literal@)),
                arg_groups(v@.skip(i as int)),
            ),
        decreases v@.len() - i,
    {
        let ghost rest = v@.skip(i as int);
        let ghost done = merged(views(groups@));
        let ghost text_before = literal@;
        let ch = v[i];
        let doubled = i + 1 < v.len() && v[i + 1] == ch;
        if ch == '{' && !doubled {
            let tail = slice_subrange(v.as_slice(), i, v.len());
            proof {
                assert(tail@ =~= rest);
            }
            let (group, n) = match parse_braced(tail) {
                Ok(x) => x,
                Err(e) => {
                    return Err(e);
                },
            };
            flush_literal(&mut groups, literal.as_str());
            push_group(&mut groups, group);
            literal = String::new();
            proof {
                lemma_prefixed_step(
                    glue(done, literal_group(text_before)),
                    rest,
                    group@,
                    n as nat,
                );
                lemma_glue_nothing(merged(views(groups@)));
                assert(literal_group(literal@) == Seq::<KeyGroupView>::empty());
                assert(rest.skip(n as int) =~= v@.skip(i + n));
            }
            i = i + n;
        } else if ch == '}' && !doubled {
            return Err(text("unexpected '}' without matching '{'"));
        } else {
            let step: usize = if ch == '{' || ch == '}' {
                2
            } else {
                1
            };
            literal.push(ch);
            proof {
                lemma_literal_step(done, text_before, rest, ch, step as nat);
                assert(rest.skip(step as int) =~= v@.skip(i + step));
            }
            i = i + step;
        }
    }
    flush_literal(&mut groups, literal.as_str());
    proof {
        assert(v@.skip(i as int) =~= Seq::<char>::empty());
        lemma_glue_nothing(merged(views(groups@)));
    }
    Ok(merge_bytes(groups))
}

/// Parse all CLI exec arguments into a list of key groups.
///
/// Each argument is parsed independently with internal merging (so `"ls{cr}"` becomes a single
/// `Bytes` group). Boundaries between arguments are preserved so that inter-argument delays can
/// be inserted by the caller.
pub fn parse_exec_args(args: &[String]) -> (r: Result<Vec<KeyGroup>, String>)
    ensures
        match args_groups(texts(args@)) {
            Ok(g) => r matches Ok(v) && views(v@) == g,
            Err(e) => r matches Err(m) && m@ == e,
        },
{
    let mut groups: Vec<KeyGroup> = Vec::new();
    proof {
        assert(views(groups@) =~= Seq::empty());
    }
    for i in 0..args.len()
        invariant
            args_groups(texts(args@).take(i as int)) == Ok::<Seq<KeyGroupView>, Seq<char>>(
                views(groups@),
            ),
    {
        proof {
            let done = texts(args@).take(i + 1);
            assert(done.drop_last() =~= texts(args@).take(i as int));
            assert(done.last() == args@[i as int]@);
        }
        match parse_arg(args[i].as_str()) {
            Ok(mut parsed) => {
                let ghost before = groups@;
                let ghost new = parsed@;
                groups.append(&mut parsed);
                proof {
                    assert(views(groups@) =~= views(before) + views(new));
                }
            },
            Err(e) => {
                proof {
                    lemma_first_error(texts(args@), i + 1);
                }
                return Err(e);
            },
        }
    }
    proof {
        assert(texts(args@).take(args@.len() as int) =~= texts(args@));
    }
    Ok(groups)
}

/// An error in the first arguments is the error of all of them.
proof fn lemma_first_error(args: Seq<Seq<char>>, n: int)
    requires
        0 <= n <= args.len(),
        args_groups(args.take(n)) is Err,
    ensures
        args_groups(args) == args_groups(args.take(n)),
    decreases args.len(),
{
    if n == args.len() {
        assert(args.take(n) =~= args);
    } else {
        assert(args.drop_last().take(n) =~= args.take(n));
        lemma_first_error(args.drop_last(), n);
    }
}

// === Arguments for the user ===

/// An argument as the user is to see it: the text from stdin in place of each placeholder, and
/// all else as it was written. Behind a mistake there are no more tokens; such an argument is
/// never run.
pub open spec fn shown_arg(s: Seq<char>, stdin: Seq<char>) -> Seq<char>
    decreases s.len(),
{
    if s.len() == 0 {
        Seq::empty()
    } else {
        proof {
            lemma_position(s.skip(1), '}');
        }
        match token(s) {
            Err(_) => s,
            Ok((g, n)) => (if g is Stdin {
                stdin
            } else {
                s.take(n as int)
            }) + shown_arg(s.skip(n as int), stdin),
        }
    }
}

fn push_chars(s: &mut String, v: &[char])
    ensures
        final(s)@ == old(s)@ + v@,
{
    let ghost before = s@;
    for i in 0..v.len()
        invariant
            s@ == before + v@.take(i as int),
    {
        s.push(v[i]);
        proof {
            assert(s@ =~= before + v@.take(i + 1));
        }
    }
    proof {
        assert(v@.take(v@.len() as int) =~= v@);
    }
}

/// An argument with the text from stdin in place of each placeholder.
pub fn show_arg(arg: &str, stdin: &str) -> (r: String)
    ensures
        r@ == shown_arg(arg@, stdin@),
{
    let v = chars_of(arg);
    let piped = chars_of(stdin);
    let mut r = String::new();
    let mut i: usize = 0;
    proof {
        assert(v@.skip(0) =~= v@);
        assert(r@ + shown_arg(v@, stdin@) =~= shown_arg(v@, stdin@));
    }
    while i < v.len()
        invariant
            i <= v@.len(),
            v@ == arg@,
            piped@ == stdin@,
            shown_arg(arg@, stdin@) == r@ + shown_arg(v@.skip(i as int), stdin@),
        decreases v@.len() - i,
    {
        let ghost before = r@;
        let tail = slice_subrange(v.as_slice(), i, v.len());
        proof {
            assert(tail@ =~= v@.skip(i as int));
        }
        let ch = v[i];
        let doubled = i + 1 < v.len() && v[i + 1] == ch;
        let (is_stdin, n): (bool, usize) = if ch == '{' && !doubled {
            match parse_braced(tail) {
                Ok((group, n)) => (matches!(group, KeyGroup::Stdin), n),
                Err(_) => {
                    push_chars(&mut r, tail);
                    return r;
                },
            }
        } else if ch == '}' && !doubled {
            push_chars(&mut r, tail);
            return r;
        } else if ch == '{' || ch == '}' {
            (false, 2)
        } else {
            (false, 1)
        };
        if is_stdin {
            push_chars(&mut r, piped.as_slice());
        } else {
            let piece = slice_subrange(tail, 0, n);
            proof {
                assert(piece@ =~= tail@.take(n as int));
            }
            push_chars(&mut r, piece);
        }
        proof {
            let rest = v@.skip(i + n);
            assert(tail@.skip(n as int) =~= rest);
            assert(r@ + shown_arg(rest, stdin@) =~= before + shown_arg(tail@, stdin@));
        }
        i = i + n;
    }
    proof {
        assert(v@.skip(i as int) =~= Seq::<char>::empty());
        assert(r@ + Seq::<char>::empty() =~= r@);
    }
    r
}

// === Laws ===

/// The token of the placeholder.
pub proof fn lemma_stdin_token(rest: Seq<char>)
    ensures
        token("{stdin}"@ + rest) == Ok::<(KeyGroupView, nat), Seq<char>>((KeyGroupView::Stdin, 7)),
        "{stdin}"@.len() == 7,
        ("{stdin}"@ + rest).skip(7) == rest,
{
    reveal_strlit("{stdin}");
    reveal_strlit("stdin");
    let arg = "{stdin}"@ + rest;
    let inner = arg.skip(1);
    lemma_position(inner, '}');
    assert(inner[5] == '}');
    assert(position(inner, '}') == 5) by {
        let n = position(inner, '}') as int;
        if n < 5 {
            assert(inner[n] == '}');
        }
    }
    assert(inner.take(5) =~= "stdin"@);
    assert(key_expression(inner.take(5)) == Ok::<KeyGroupView, Seq<char>>(KeyGroupView::Stdin));
    assert(arg.skip(7) =~= rest);
}

/// The user sees the text from stdin and not its placeholder, whatever stands around it. Text
/// whose braces are doubled is shown as it was written, also where it spells the placeholder.
pub proof fn law_piped_text_is_shown(a: Seq<char>, b: Seq<char>, stdin: Seq<char>)
    ensures
        shown_arg(escaped(a) + ("{stdin}"@ + b), stdin) == escaped(a) + (stdin + shown_arg(
            b,
            stdin,
        )),
        shown_arg(escaped(a), stdin) == escaped(a),
    decreases a.len(),
{
    let end = "{stdin}"@ + b;
    let s = escaped(a) + end;
    if a.len() == 0 {
        lemma_stdin_token(b);
        assert(s =~= end);
        assert(shown_arg(s, stdin) =~= escaped(a) + (stdin + shown_arg(b, stdin)));
    } else {
        let c = a[0];
        let e = escaped(a);
        let n: nat = if c == '{' || c == '}' {
            2
        } else {
            1
        };
        let rest = escaped(a.skip(1));
        law_piped_text_is_shown(a.skip(1), b, stdin);
        assert(e.skip(n as int) =~= rest);
        assert(s.skip(n as int) =~= rest + end);
        assert(s.take(n as int) =~= e.take(n as int));
        assert(e =~= e.take(n as int) + rest);
        let g = KeyGroupView::Bytes(encode_utf8(seq![c]));
        assert(token(e) == Ok::<(KeyGroupView, nat), Seq<char>>((g, n)));
        assert(token(s) == Ok::<(KeyGroupView, nat), Seq<char>>((g, n)));
        assert(shown_arg(s, stdin) =~= e + (stdin + shown_arg(b, stdin)));
        assert(shown_arg(e, stdin) =~= e);
    }
}

/// A text with its braces doubled.
pub open spec fn escaped(s: Seq<char>) -> Seq<char>
    decreases s.len(),
{
    if s.len() == 0 {
        Seq::empty()
    } else if s[0] == '{' || s[0] == '}' {
        seq![s[0], s[0]] + escaped(s.skip(1))
    } else {
        seq![s[0]] + escaped(s.skip(1))
    }
}

/// Text whose braces are doubled is sent as it stands, in one group.
pub proof fn law_escaped_text_is_literal(s: Seq<char>)
    ensures
        arg_groups(escaped(s)) == Ok::<Seq<KeyGroupView>, Seq<char>>(literal_group(s)),
    decreases s.len(),
{
    if s.len() > 0 {
        let c = s[0];
        let e = escaped(s);
        let n: nat = if c == '{' || c == '}' {
            2
        } else {
            1
        };
        law_escaped_text_is_literal(s.skip(1));
        assert(e.skip(n as int) =~= escaped(s.skip(1)));
        let g = KeyGroupView::Bytes(encode_utf8(seq![c]));
        assert(token(e) == Ok::<(KeyGroupView, nat), Seq<char>>((g, n)));
        assert(s =~= seq![c] + s.skip(1));
        lemma_utf8_concat(seq![c], s.skip(1));
        assert(encode_utf8(seq![c]) + encode_utf8(Seq::<char>::empty()) =~= encode_utf8(
            seq![c],
        ));
        reveal(glue);
        assert(glue(seq![g], literal_group(s.skip(1))) =~~= literal_group(s));
    }
}

/// Whether no two groups of bytes stand side by side and none is empty.
pub open spec fn is_merged(groups: Seq<KeyGroupView>) -> bool {
    &&& forall|i: int|
        0 <= i < groups.len() ==> !(#[trigger] groups[i] matches KeyGroupView::Bytes(b)
            && b.len() == 0)
    &&& forall|i: int, j: int|
        0 <= i < groups.len() && j == i + 1 && j < groups.len() ==> !(#[trigger] groups[i] is Bytes
            && #[trigger] groups[j] is Bytes)
}

proof fn lemma_key_bytes_nonempty(name: Seq<char>, ctrl: bool, shift: bool, alt: bool)
    ensures
        key_bytes(name, ctrl, shift, alt) matches Ok(b) ==> b.len() > 0,
{
}

proof fn lemma_token_nonempty(s: Seq<char>)
    requires
        s.len() > 0,
    ensures
        token(s) matches Ok((KeyGroupView::Bytes(b), n)) ==> b.len() > 0,
{
    if s[0] == '{' && !(s.len() > 1 && s[1] == '{') {
        let expr = s.skip(1).take(position(s.skip(1), '}') as int);
        if let Ok((ctrl, shift, alt, name)) = modifiers(expr, expr, false, false, false) {
            lemma_key_bytes_nonempty(name, ctrl, shift, alt);
        }
    } else {
        let c = s[0];
        assert(encode_utf8(seq![c]).len() > 0) by {
            assert(seq![c].drop_first() =~= Seq::<char>::empty());
        }
    }
}

/// Within one argument adjacent bytes are in one group, and every group of bytes sends at least
/// one.
pub proof fn law_groups_of_an_argument_are_merged(s: Seq<char>)
    ensures
        arg_groups(s) matches Ok(g) ==> is_merged(g),
    decreases s.len(),
{
    if s.len() > 0 {
        lemma_position(s.skip(1), '}');
        lemma_token_nonempty(s);
        if let Ok((g, n)) = token(s) {
            law_groups_of_an_argument_are_merged(s.skip(n as int));
            if let Ok(rest) = arg_groups(s.skip(n as int)) {
                reveal(glue);
                let all = glue(seq![g], rest);
                let joined = rest.len() > 0 && g is Bytes && rest[0] is Bytes;
                let shift: int = if joined {
                    0
                } else {
                    1
                };
                assert forall|i: int| 0 <= i < all.len() implies !(#[trigger] all[i] matches
                    KeyGroupView::Bytes(b) && b.len() == 0) by {
                    if i > 0 {
                        assert(all[i] == rest[i - shift]);
                    }
                }
                assert forall|i: int, j: int|
                    0 <= i < all.len() && j == i + 1 && j < all.len() implies !(
                #[trigger] all[i] is Bytes && #[trigger] all[j] is Bytes) by {
                    assert(all[j] == rest[j - shift]);
                    if i > 0 {
                        assert(all[i] == rest[i - shift]);
                    } else if joined {
                        assert(rest[0] is Bytes);
                    }
                }
            }
        }
    }
}

/// The groups of two lists of arguments are those of the first list and then those of the
/// second: nothing is merged over the boundary between two arguments.
pub proof fn law_arguments_stay_apart(a: Seq<Seq<char>>, b: Seq<Seq<char>>)
    ensures
        args_groups(a + b) == match args_groups(a) {
            Err(e) => Err(e),
            Ok(ga) => match args_groups(b) {
                Err(e) => Err(e),
                Ok(gb) => Ok(ga + gb),
            },
        },
    decreases b.len(),
{
    if b.len() == 0 {
        assert(a + b =~= a);
        if let Ok(ga) = args_groups(a) {
            assert(ga + Seq::<KeyGroupView>::empty() =~= ga);
        }
    } else {
        assert((a + b).drop_last() =~= a + b.drop_last());
        law_arguments_stay_apart(a, b.drop_last());
        if let Ok(ga) = args_groups(a) {
            if let Ok(gb) = args_groups(b.drop_last()) {
                if let Ok(g) = arg_groups(b.last()) {
                    assert((ga + gb) + g =~= ga + (gb + g));
                }
            }
        }
    }
}

/// Whether a text is one of the three modifier prefixes.
pub open spec fn is_modifier(p: Seq<char>) -> bool {
    p == "c-"@ || p == "s-"@ || p == "a-"@
}

/// Modifiers, one after the other.
pub open spec fn all_modifiers(list: Seq<Seq<char>>) -> Seq<char>
    decreases list.len(),
{
    if list.len() == 0 {
        Seq::empty()
    } else {
        list[0] + all_modifiers(list.skip(1))
    }
}

/// Whether each modifier occurs once, counting those that were read already.
pub open spec fn once_each(list: Seq<Seq<char>>, ctrl: bool, shift: bool, alt: bool) -> bool {
    &&& list.no_duplicates()
    &&& ctrl ==> !list.contains("c-"@)
    &&& shift ==> !list.contains("s-"@)
    &&& alt ==> !list.contains("a-"@)
}

pub proof fn lemma_modifier_first(p: Seq<char>, rest: Seq<char>)
    requires
        is_modifier(p),
    ensures
        p.len() == 2,
        p[1] == '-',
        p.is_prefix_of(p + rest),
        (p + rest).skip(2) == rest,
        forall|q: Seq<char>| is_modifier(q) && q != p ==> !#[trigger] q.is_prefix_of(p + rest),
        "c-"@.len() == 2,
        "s-"@.len() == 2,
        "a-"@.len() == 2,
        "c-"@ != "s-"@,
        "c-"@ != "a-"@,
        "s-"@ != "a-"@,
{
    reveal_strlit("c-");
    reveal_strlit("s-");
    reveal_strlit("a-");
    assert("c-"@[0] == 'c');
    assert("s-"@[0] == 's');
    assert("a-"@[0] == 'a');
    assert((p + rest).skip(2) =~= rest);
    assert((p + rest).subrange(0, 2) =~= p);
}

pub proof fn lemma_reads_modifiers(
    shown: Seq<char>,
    list: Seq<Seq<char>>,
    rest: Seq<char>,
    ctrl: bool,
    shift: bool,
    alt: bool,
)
    requires
        forall|i: int| 0 <= i < list.len() ==> is_modifier(#[trigger] list[i]),
    ensures
        if once_each(list, ctrl, shift, alt) {
            modifiers(shown, all_modifiers(list) + rest, ctrl, shift, alt) == modifiers(
                shown,
                rest,
                ctrl || list.contains("c-"@),
                shift || list.contains("s-"@),
                alt || list.contains("a-"@),
            )
        } else {
            modifiers(shown, all_modifiers(list) + rest, ctrl, shift, alt) is Err
        },
    decreases list.len(),
{
    if list.len() == 0 {
        assert(all_modifiers(list) + rest =~= rest);
    } else {
        let p = list[0];
        let tail = list.skip(1);
        let after = all_modifiers(tail) + rest;
        assert(is_modifier(p));
        assert forall|i: int| 0 <= i < tail.len() implies is_modifier(#[trigger] tail[i]) by {
            assert(is_modifier(list[i + 1]));
        }
        assert(all_modifiers(list) + rest =~= p + after);
        lemma_modifier_first(p, after);
        lemma_reads_modifiers(
            shown,
            tail,
            rest,
            ctrl || p == "c-"@,
            shift || p == "s-"@,
            alt || p == "a-"@,
        );
        assert forall|x: Seq<char>| #[trigger] list.contains(x) <==> x == p || tail.contains(x) by {
            if tail.contains(x) {
                let i = choose|i: int| 0 <= i < tail.len() && tail[i] == x;
                assert(list[i + 1] == x);
            }
            if list.contains(x) && x != p {
                let i = choose|i: int| 0 <= i < list.len() && list[i] == x;
                assert(tail[i - 1] == x);
            }
        }
        assert(list.no_duplicates() <==> tail.no_duplicates() && !tail.contains(p)) by {
            if tail.no_duplicates() && !tail.contains(p) {
                assert forall|i: int, j: int|
                    0 <= i < list.len() && 0 <= j < list.len() && i != j implies list[i]
                    != list[j] by {
                    if i > 0 {
                        assert(tail[i - 1] == list[i]);
                    }
                    if j > 0 {
                        assert(tail[j - 1] == list[j]);
                    }
                }
            }
            if list.no_duplicates() {
                assert forall|i: int, j: int|
                    0 <= i < tail.len() && 0 <= j < tail.len() && i != j implies tail[i]
                    != tail[j] by {
                    assert(list[i + 1] != list[j + 1]);
                }
                if tail.contains(p) {
                    let i = choose|i: int| 0 <= i < tail.len() && tail[i] == p;
                    assert(list[i + 1] == list[0]);
                }
            }
        }
    }
}

/// An expression with a modifier is read as a key.
proof fn lemma_modified_key(list: Seq<Seq<char>>, rest: Seq<char>)
    requires
        list.len() > 0,
        forall|i: int| 0 <= i < list.len() ==> is_modifier(#[trigger] list[i]),
    ensures
        ({
            let expr = all_modifiers(list) + rest;
            key_expression(expr) == read_key(expr, expr)
        }),
{
    let expr = all_modifiers(list) + rest;
    let p = list[0];
    let after = all_modifiers(list.skip(1)) + rest;
    assert(is_modifier(p));
    assert(expr =~= p + after);
    lemma_modifier_first(p, after);
    reveal_strlit("stdin");
    reveal_strlit("sleep");
    reveal_strlit("wait");
    reveal_strlit("sleep:");
    reveal_strlit("wait:");
    assert(expr[1] == '-');
    assert("stdin"@[1] == 't');
    assert("sleep"@[1] == 'l');
    assert("wait"@[1] == 'a');
    assert(!"sleep:"@.is_prefix_of(expr)) by {
        if "sleep:"@.is_prefix_of(expr) {
            assert(expr.subrange(0, 6)[1] == expr[1]);
        }
    }
    assert(!"wait:"@.is_prefix_of(expr)) by {
        if "wait:"@.is_prefix_of(expr) {
            assert(expr.subrange(0, 5)[1] == expr[1]);
        }
    }
}

/// Which modifiers an expression has, what is left of it, and whether it is refused, depends on
/// the text that its error shows in no way.
proof fn lemma_modifiers_text(
    expr: Seq<char>,
    other: Seq<char>,
    rest: Seq<char>,
    ctrl: bool,
    shift: bool,
    alt: bool,
)
    ensures
        match modifiers(expr, rest, ctrl, shift, alt) {
            Ok(x) => modifiers(other, rest, ctrl, shift, alt) == Ok::<
                (bool, bool, bool, Seq<char>),
                Seq<char>,
            >(x),
            Err(_) => modifiers(other, rest, ctrl, shift, alt) is Err,
        },
    decreases rest.len(),
{
    reveal_strlit("c-");
    reveal_strlit("s-");
    reveal_strlit("a-");
    if "c-"@.is_prefix_of(rest) {
        if !ctrl {
            lemma_modifiers_text(expr, other, rest.skip(2), true, shift, alt);
        }
    } else if "s-"@.is_prefix_of(rest) {
        if !shift {
            lemma_modifiers_text(expr, other, rest.skip(2), ctrl, true, alt);
        }
    } else if "a-"@.is_prefix_of(rest) {
        if !alt {
            lemma_modifiers_text(expr, other, rest.skip(2), ctrl, shift, true);
        }
    }
}

/// Modifiers may be written in any order. Where each occurs once, the expression is the same key,
/// or has the same error but for the expression that the error shows. Where one occurs twice, the
/// expression is an error in every order.
pub proof fn law_modifiers_commute(
    list: Seq<Seq<char>>,
    other: Seq<Seq<char>>,
    rest: Seq<char>,
    shown: Seq<char>,
)
    requires
        forall|i: int| 0 <= i < list.len() ==> is_modifier(#[trigger] list[i]),
        list.to_multiset() == other.to_multiset(),
    ensures
        ({
            let expr = all_modifiers(list) + rest;
            let expr2 = all_modifiers(other) + rest;
            &&& list.len() > 0 ==> key_expression(expr) == read_key(expr, expr)
                && key_expression(expr2) == read_key(expr2, expr2)
            &&& list.no_duplicates() ==> read_key(shown, expr) == read_key(shown, expr2)
            &&& !list.no_duplicates() ==> key_expression(expr) is Err && key_expression(
                expr2,
            ) is Err
            &&& key_expression(expr) is Ok ==> key_expression(expr2) == key_expression(expr)
            &&& key_expression(expr) is Err ==> key_expression(expr2) is Err
        }),
{
    let expr = all_modifiers(list) + rest;
    let expr2 = all_modifiers(other) + rest;
    list.to_multiset_ensures();
    other.to_multiset_ensures();
    assert forall|x: Seq<char>| list.contains(x) <==> #[trigger] other.contains(x) by {
        assert(list.contains(x) <==> list.to_multiset().count(x) > 0);
        assert(other.contains(x) <==> other.to_multiset().count(x) > 0);
    }
    assert forall|i: int| 0 <= i < other.len() implies is_modifier(#[trigger] other[i]) by {
        assert(other.contains(other[i]));
        let j = choose|j: int| 0 <= j < list.len() && list[j] == other[i];
        assert(is_modifier(list[j]));
    }
    if list.no_duplicates() {
        list.lemma_multiset_has_no_duplicates();
        other.lemma_multiset_has_no_duplicates_conv();
    }
    if other.no_duplicates() {
        other.lemma_multiset_has_no_duplicates();
        list.lemma_multiset_has_no_duplicates_conv();
    }
    lemma_reads_modifiers(shown, list, rest, false, false, false);
    lemma_reads_modifiers(shown, other, rest, false, false, false);
    lemma_reads_modifiers(expr, list, rest, false, false, false);
    lemma_reads_modifiers(expr, other, rest, false, false, false);
    lemma_reads_modifiers(expr2, other, rest, false, false, false);
    lemma_modifiers_text(expr, expr2, expr2, false, false, false);
    if list.len() > 0 {
        lemma_modified_key(list, rest);
        lemma_modified_key(other, rest);
    } else {
        assert(list =~= other);
    }
}

/// Each combination of modifiers has a parameter of its own, between 1 and 8.
pub proof fn law_modifier_parameters_differ(
    ctrl: bool,
    shift: bool,
    alt: bool,
    ctrl2: bool,
    shift2: bool,
    alt2: bool,
)
    ensures
        1 <= modifier(ctrl, shift, alt) <= 8,
        modifier(ctrl, shift, alt) == modifier(ctrl2, shift2, alt2) ==> ctrl == ctrl2 && shift
            == shift2 && alt == alt2,
{
}

} // verus!
