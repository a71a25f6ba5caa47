//! The assembly output, structured. The code generator emits a buffer of
//! `AsmLine` values; `render_line` turns each into its AArch64 (Darwin) text,
//! exactly as `line_text` states it. Stack traffic works on 16-byte slots:
//! a push stores the live value and a scratch register with `STP`, a pop
//! restores with `LDP`, and offsets and teardowns are slot counts times 16.

use vstd::prelude::*;

verus! {

/// The registers the generator pushes and pops through.
#[derive(Debug, Clone, Copy, PartialEq, Eq, Structural)]
pub enum Reg {
    X0,
    X1,
    X2,
    X3,
}

/// A condition code of a `CSET X1, <cc>` emission.
#[derive(Debug, Clone, Copy, PartialEq, Eq, Structural)]
pub enum CondCode {
    Eq,
    Gt,
    Lt,
    Ge,
    Le,
}

/// One emitted assembly line. Numeric payloads are slot counts or label
/// numbers; the renderer turns slots into byte offsets.
#[derive(Debug, PartialEq)]
pub enum AsmLine {
    /// `.global _start`
    Global,
    /// `.align 2`
    Align,
    /// `_start:`
    StartLabel,
    /// `_<name>:`
    FuncLabel(String),
    /// `RET`
    Ret,
    /// `STP <r>, X9, [SP, #-16]!` — push one slot
    Push(Reg),
    /// `LDP <r>, X9, [SP], #16` — pop one slot
    Pop(Reg),
    /// `LDP <r>, X9, [SP, #<16*slots>]` — read a value `slots` slots up
    PopAt(Reg, usize),
    /// `ADD SP, SP, #<16*slots>` — release `slots` slots at once
    ReleaseSlots(usize),
    /// `LDP X1, X2, [SP, #<16*slots>]` — read a variable's slot
    LoadVar(usize),
    /// `STP X1, X2, [SP, #<16*slots>]` — overwrite a variable's slot
    StoreVar(usize),
    /// `MOV X1, #<digits>`
    MovInt(String),
    /// `MOV X1, #1` or `MOV X1, #0`
    MovBool(bool),
    /// `cmp X1, 0`
    CmpX1Zero,
    /// `b.eq label<n>`
    BranchEq(usize),
    /// `label<n>:`
    LabelDef(usize),
    /// `MOV X2, 0`
    MovX2Zero,
    /// `cmp X2, 0`
    CmpX2Zero,
    /// `mov X16, #1`
    MovX16One,
    /// `svc #0x80`
    Svc,
    /// `MOV X29, X30`
    CallSaveLink,
    /// `BL _<name>`
    Bl(String),
    /// `MOV X30, X29`
    CallRestoreLink,
    /// `ADD X1, X1, X2`
    AddOp,
    /// `SUBS X1, X1, X2`
    SubOp,
    /// `MUL X1, X1, X2`
    MulOp,
    /// `SDIV X1, X1, X2`
    DivOp,
    /// `CMP X1, X2`
    CmpOp,
    /// `CSET X1, <cc>`
    Cset(CondCode),
    /// `MOV X0, #0`
    MovX0Zero,
    /// `CMN X1, X2`
    CmnX1X2,
    /// `CSET X0, NE`
    CsetX0Ne,
    /// `ORR X0, X0, X2`
    OrrX0,
    /// `MOV X3, #0`
    MovX3Zero,
    /// `MOV X4, #0`
    MovX4Zero,
    /// `CSET X3, NE`
    CsetX3Ne,
    /// `CMN X1, X1`
    CmnX1X1,
    /// `CSET X4, NE`
    CsetX4Ne,
    /// `AND X3, X3, X4`
    AndX3,
    /// `;<text>`
    Comment(String),
}

/// The mathematical image of an `AsmLine`: text payloads become `Seq<char>`,
/// numbers become `int`.
pub enum SpecAsmLine {
    Global,
    Align,
    StartLabel,
    FuncLabel(Seq<char>),
    Ret,
    Push(Reg),
    Pop(Reg),
    PopAt(Reg, int),
    ReleaseSlots(int),
    LoadVar(int),
    StoreVar(int),
    MovInt(Seq<char>),
    MovBool(bool),
    CmpX1Zero,
    BranchEq(int),
    LabelDef(int),
    MovX2Zero,
    CmpX2Zero,
    MovX16One,
    Svc,
    CallSaveLink,
    Bl(Seq<char>),
    CallRestoreLink,
    AddOp,
    SubOp,
    MulOp,
    DivOp,
    CmpOp,
    Cset(CondCode),
    MovX0Zero,
    CmnX1X2,
    CsetX0Ne,
    OrrX0,
    MovX3Zero,
    MovX4Zero,
    CsetX3Ne,
    CmnX1X1,
    CsetX4Ne,
    AndX3,
    Comment(Seq<char>),
}

impl View for AsmLine {
    type V = SpecAsmLine;

    open spec fn view(&self) -> SpecAsmLine {
        match self {
            AsmLine::Global => SpecAsmLine::Global,
            AsmLine::Align => SpecAsmLine::Align,
            AsmLine::StartLabel => SpecAsmLine::StartLabel,
            AsmLine::FuncLabel(s) => SpecAsmLine::FuncLabel(s@),
            AsmLine::Ret => SpecAsmLine::Ret,
            AsmLine::Push(r) => SpecAsmLine::Push(*r),
            AsmLine::Pop(r) => SpecAsmLine::Pop(*r),
            AsmLine::PopAt(r, k) => SpecAsmLine::PopAt(*r, *k as int),
            AsmLine::ReleaseSlots(k) => SpecAsmLine::ReleaseSlots(*k as int),
            AsmLine::LoadVar(k) => SpecAsmLine::LoadVar(*k as int),
            AsmLine::StoreVar(k) => SpecAsmLine::StoreVar(*k as int),
            AsmLine::MovInt(s) => SpecAsmLine::MovInt(s@),
            AsmLine::MovBool(b) => SpecAsmLine::MovBool(*b),
            AsmLine::CmpX1Zero => SpecAsmLine::CmpX1Zero,
            AsmLine::BranchEq(n) => SpecAsmLine::BranchEq(*n as int),
            AsmLine::LabelDef(n) => SpecAsmLine::LabelDef(*n as int),
            AsmLine::MovX2Zero => SpecAsmLine::MovX2Zero,
            AsmLine::CmpX2Zero => SpecAsmLine::CmpX2Zero,
            AsmLine::MovX16One => SpecAsmLine::MovX16One,
            AsmLine::Svc => SpecAsmLine::Svc,
            AsmLine::CallSaveLink => SpecAsmLine::CallSaveLink,
            AsmLine::Bl(s) => SpecAsmLine::Bl(s@),
            AsmLine::CallRestoreLink => SpecAsmLine::CallRestoreLink,
            AsmLine::AddOp => SpecAsmLine::AddOp,
            AsmLine::SubOp => SpecAsmLine::SubOp,
            AsmLine::MulOp => SpecAsmLine::MulOp,
            AsmLine::DivOp => SpecAsmLine::DivOp,
            AsmLine::CmpOp => SpecAsmLine::CmpOp,
            AsmLine::Cset(c) => SpecAsmLine::Cset(*c),
            AsmLine::MovX0Zero => SpecAsmLine::MovX0Zero,
            AsmLine::CmnX1X2 => SpecAsmLine::CmnX1X2,
            AsmLine::CsetX0Ne => SpecAsmLine::CsetX0Ne,
            AsmLine::OrrX0 => SpecAsmLine::OrrX0,
            AsmLine::MovX3Zero => SpecAsmLine::MovX3Zero,
            AsmLine::MovX4Zero => SpecAsmLine::MovX4Zero,
            AsmLine::CsetX3Ne => SpecAsmLine::CsetX3Ne,
            AsmLine::CmnX1X1 => SpecAsmLine::CmnX1X1,
            AsmLine::CsetX4Ne => SpecAsmLine::CsetX4Ne,
            AsmLine::AndX3 => SpecAsmLine::AndX3,
            AsmLine::Comment(s) => SpecAsmLine::Comment(s@),
        }
    }
}

/// The image of a line buffer under the view.
pub open spec fn view_lines(ls: Seq<AsmLine>) -> Seq<SpecAsmLine> {
    ls.map_values(|l: AsmLine| l@)
}

pub proof fn lemma_view_lines_push(ls: Seq<AsmLine>, l: AsmLine)
    ensures
        view_lines(ls.push(l)) == view_lines(ls).push(l@),
{
    assert(view_lines(ls.push(l)) =~= view_lines(ls).push(l@));
}

/// How one line moves the runtime stack, counted in 16-byte slots: a push
/// adds one, a pop removes one, a teardown removes its slot count.
pub open spec fn line_effect(l: SpecAsmLine) -> int {
    match l {
        SpecAsmLine::Push(_) => 1,
        SpecAsmLine::Pop(_) => -1,
        SpecAsmLine::ReleaseSlots(k) => -k,
        _ => 0,
    }
}

/// The net stack movement of a line sequence.
pub open spec fn seq_effect(s: Seq<SpecAsmLine>) -> int
    decreases s.len(),
{
    if s.len() == 0 {
        0
    } else {
        seq_effect(s.drop_last()) + line_effect(s.last())
    }
}

pub proof fn lemma_seq_effect_push(s: Seq<SpecAsmLine>, l: SpecAsmLine)
    ensures
        seq_effect(s.push(l)) == seq_effect(s) + line_effect(l),
{
    assert(s.push(l).drop_last() =~= s);
    assert(s.push(l).last() == l);
}

pub proof fn lemma_seq_effect_concat(a: Seq<SpecAsmLine>, b: Seq<SpecAsmLine>)
    ensures
        seq_effect(a + b) == seq_effect(a) + seq_effect(b),
    decreases b.len(),
{
    if b.len() == 0 {
        assert(a + b =~= a);
    } else {
        assert((a + b).drop_last() =~= a + b.drop_last());
        assert((a + b).last() == b.last());
        lemma_seq_effect_concat(a, b.drop_last());
    }
}

/// Every label defined in `s` has a number in `[lo, hi)`.
pub open spec fn labels_bounded(s: Seq<SpecAsmLine>, lo: int, hi: int) -> bool {
    forall|i: int|
        0 <= i < s.len() && (#[trigger] s[i]) is LabelDef ==> lo <= s[i]->LabelDef_0 < hi
}

/// No two lines of `s` define the same label.
pub open spec fn labels_distinct(s: Seq<SpecAsmLine>) -> bool {
    forall|i: int, j: int|
        0 <= i < j < s.len() && (#[trigger] s[i]) is LabelDef && (#[trigger] s[j]) is LabelDef
            ==> s[i]->LabelDef_0 != s[j]->LabelDef_0
}

/// Whether `s` defines label `n`.
pub open spec fn has_label(s: Seq<SpecAsmLine>, n: int) -> bool {
    exists|i: int| 0 <= i < s.len() && (#[trigger] s[i]) is LabelDef && s[i]->LabelDef_0 == n
}

/// The decimal digit `d` as a character.
pub open spec fn digit_char(d: int) -> char {
    if d == 0 {
        '0'
    } else if d == 1 {
        '1'
    } else if d == 2 {
        '2'
    } else if d == 3 {
        '3'
    } else if d == 4 {
        '4'
    } else if d == 5 {
        '5'
    } else if d == 6 {
        '6'
    } else if d == 7 {
        '7'
    } else if d == 8 {
        '8'
    } else {
        '9'
    }
}

/// The decimal digits of `n`, most significant first, without leading
/// zeroes (a lone `0` for zero).
pub open spec fn dec_digits(n: nat) -> Seq<char>
    decreases n,
{
    if n < 10 {
        seq![digit_char(n as int)]
    } else {
        dec_digits(n / 10) + seq![digit_char((n % 10) as int)]
    }
}

pub proof fn lemma_dec_digits_len(n: nat)
    ensures
        dec_digits(n).len() >= 1,
        n < 10 ==> dec_digits(n).len() == 1,
        n >= 10 ==> dec_digits(n).len() >= 2,
    decreases n,
{
    if n >= 10 {
        lemma_dec_digits_len(n / 10);
    }
}

/// Decimal printing is injective: distinct numbers render to distinct digit
/// strings.
pub proof fn lemma_dec_digits_injective(a: nat, b: nat)
    requires
        dec_digits(a) == dec_digits(b),
    ensures
        a == b,
    decreases a,
{
    lemma_dec_digits_len(a);
    lemma_dec_digits_len(b);
    if a < 10 && b < 10 {
        assert(dec_digits(a)[0] == dec_digits(b)[0]);
        assert(dec_digits(a)[0] == digit_char(a as int));
        assert(dec_digits(b)[0] == digit_char(b as int));
        assert(a == b);
    } else if a >= 10 && b >= 10 {
        assert(dec_digits(a).last() == digit_char((a % 10) as int));
        assert(dec_digits(b).last() == digit_char((b % 10) as int));
        assert(a % 10 == b % 10);
        assert(dec_digits(a).drop_last() =~= dec_digits(a / 10));
        assert(dec_digits(b).drop_last() =~= dec_digits(b / 10));
        assert(dec_digits(a / 10) == dec_digits(b / 10));
        lemma_dec_digits_injective(a / 10, b / 10);
        assert(a == 10 * (a / 10) + a % 10);
        assert(b == 10 * (b / 10) + b % 10);
        assert(a == b);
    } else if a < 10 {
        assert(dec_digits(a).len() == 1 && dec_digits(b).len() >= 2);
        assert(false);
    } else {
        assert(dec_digits(b).len() == 1 && dec_digits(a).len() >= 2);
        assert(false);
    }
}

/// The text of a condition code.
pub open spec fn cond_text(c: CondCode) -> Seq<char> {
    match c {
        CondCode::Eq => "eq"@,
        CondCode::Gt => "gt"@,
        CondCode::Lt => "lt"@,
        CondCode::Ge => "ge"@,
        CondCode::Le => "le"@,
    }
}

/// The name of a register.
pub open spec fn reg_text(r: Reg) -> Seq<char> {
    match r {
        Reg::X0 => "X0"@,
        Reg::X1 => "X1"@,
        Reg::X2 => "X2"@,
        Reg::X3 => "X3"@,
    }
}

/// The rendered text of one assembly line, without a trailing newline.
pub open spec fn line_text(l: SpecAsmLine) -> Seq<char> {
    match l {
        SpecAsmLine::Global => ".global _start"@,
        SpecAsmLine::Align => ".align 2"@,
        SpecAsmLine::StartLabel => "_start:"@,
        SpecAsmLine::FuncLabel(name) => "_"@ + name + ":"@,
        SpecAsmLine::Ret => "RET"@,
        SpecAsmLine::Push(r) => "STP "@ + reg_text(r) + ", X9, [SP, #-16]!"@,
        SpecAsmLine::Pop(r) => "LDP "@ + reg_text(r) + ", X9, [SP], #16"@,
        SpecAsmLine::PopAt(r, k) => "LDP "@ + reg_text(r) + ", X9, [SP, #"@ + dec_digits(
            (16 * k) as nat,
        ) + "]"@,
        SpecAsmLine::ReleaseSlots(k) => "ADD SP, SP, #"@ + dec_digits((16 * k) as nat),
        SpecAsmLine::LoadVar(k) => "LDP X1, X2, [SP, #"@ + dec_digits((16 * k) as nat) + "]"@,
        SpecAsmLine::StoreVar(k) => "STP X1, X2, [SP, #"@ + dec_digits((16 * k) as nat) + "]"@,
        SpecAsmLine::MovInt(digits) => "MOV X1, #"@ + digits,
        SpecAsmLine::MovBool(b) => if b {
            "MOV X1, #1"@
        } else {
            "MOV X1, #0"@
        },
        SpecAsmLine::CmpX1Zero => "cmp X1, 0"@,
        SpecAsmLine::BranchEq(n) => "b.eq label"@ + dec_digits(n as nat),
        SpecAsmLine::LabelDef(n) => "label"@ + dec_digits(n as nat) + ":"@,
        SpecAsmLine::MovX2Zero => "MOV X2, 0"@,
        SpecAsmLine::CmpX2Zero => "cmp X2, 0"@,
        SpecAsmLine::MovX16One => "mov X16, #1"@,
        SpecAsmLine::Svc => "svc #0x80"@,
        SpecAsmLine::CallSaveLink => "MOV X29, X30"@,
        SpecAsmLine::Bl(name) => "BL _"@ + name,
        SpecAsmLine::CallRestoreLink => "MOV X30, X29"@,
        SpecAsmLine::AddOp => "ADD X1, X1, X2"@,
        SpecAsmLine::SubOp => "SUBS X1, X1, X2"@,
        SpecAsmLine::MulOp => "MUL X1, X1, X2"@,
        SpecAsmLine::DivOp => "SDIV X1, X1, X2"@,
        SpecAsmLine::CmpOp => "CMP X1, X2"@,
        SpecAsmLine::Cset(c) => "CSET X1, "@ + cond_text(c),
        SpecAsmLine::MovX0Zero => "MOV X0, #0"@,
        SpecAsmLine::CmnX1X2 => "CMN X1, X2"@,
        SpecAsmLine::CsetX0Ne => "CSET X0, NE"@,
        SpecAsmLine::OrrX0 => "ORR X0, X0, X2"@,
        SpecAsmLine::MovX3Zero => "MOV X3, #0"@,
        SpecAsmLine::MovX4Zero => "MOV X4, #0"@,
        SpecAsmLine::CsetX3Ne => "CSET X3, NE"@,
        SpecAsmLine::CmnX1X1 => "CMN X1, X1"@,
        SpecAsmLine::CsetX4Ne => "CSET X4, NE"@,
        SpecAsmLine::AndX3 => "AND X3, X3, X4"@,
        SpecAsmLine::Comment(text) => ";"@ + text,
    }
}

/// Label definition lines are injective in the label number: two distinct
/// labels never render to the same `label<n>:` line.
pub proof fn lemma_label_line_injective(n: nat, m: nat)
    requires
        line_text(SpecAsmLine::LabelDef(n as int)) == line_text(SpecAsmLine::LabelDef(m as int)),
    ensures
        n == m,
{
    reveal_strlit("label");
    reveal_strlit(":");
    let tn = "label"@ + dec_digits(n) + ":"@;
    let tm = "label"@ + dec_digits(m) + ":"@;
    lemma_dec_digits_len(n);
    lemma_dec_digits_len(m);
    assert(tn.len() == 6 + dec_digits(n).len());
    assert(tm.len() == 6 + dec_digits(m).len());
    assert(dec_digits(n) =~= tn.subrange(5, tn.len() - 1));
    assert(dec_digits(m) =~= tm.subrange(5, tm.len() - 1));
    lemma_dec_digits_injective(n, m);
}

/// Label uniqueness at text level: where the structured label definitions
/// are distinct and their numbers are machine words, no two label lines of
/// the rendered file read the same.
pub proof fn lemma_label_lines_unique(lines: Seq<SpecAsmLine>, i: int, j: int)
    requires
        labels_distinct(lines),
        0 <= i < j < lines.len(),
        lines[i] is LabelDef,
        lines[j] is LabelDef,
        lines[i]->LabelDef_0 >= 0,
        lines[j]->LabelDef_0 >= 0,
    ensures
        line_text(lines[i]) != line_text(lines[j]),
{
    if line_text(lines[i]) == line_text(lines[j]) {
        lemma_label_line_injective(
            lines[i]->LabelDef_0 as nat,
            lines[j]->LabelDef_0 as nat,
        );
    }
}

fn append_digit(s: &mut String, d: u128)
    requires
        d < 10,
    ensures
        final(s)@ == old(s)@ + seq![digit_char(d as int)],
{
    proof {
        reveal_strlit("0");
        reveal_strlit("1");
        reveal_strlit("2");
        reveal_strlit("3");
        reveal_strlit("4");
        reveal_strlit("5");
        reveal_strlit("6");
        reveal_strlit("7");
        reveal_strlit("8");
        reveal_strlit("9");
    }
    if d == 0 {
        s.append("0");
    } else if d == 1 {
        s.append("1");
    } else if d == 2 {
        s.append("2");
    } else if d == 3 {
        s.append("3");
    } else if d == 4 {
        s.append("4");
    } else if d == 5 {
        s.append("5");
    } else if d == 6 {
        s.append("6");
    } else if d == 7 {
        s.append("7");
    } else if d == 8 {
        s.append("8");
    } else {
        s.append("9");
    }
    proof {
        assert(final(s)@ =~= old(s)@ + seq![digit_char(d as int)]);
    }
}

/// Appends the decimal digits of `n`.
fn append_dec(s: &mut String, n: u128)
    ensures
        final(s)@ == old(s)@ + dec_digits(n as nat),
    decreases n,
{
    if n < 10 {
        append_digit(s, n);
    } else {
        append_dec(s, n / 10);
        append_digit(s, n % 10);
        proof {
            assert(final(s)@ =~= old(s)@ + dec_digits(n as nat));
        }
    }
}

fn reg_str(r: Reg) -> (s: &'static str)
    ensures
        s@ == reg_text(r),
{
    match r {
        Reg::X0 => "X0",
        Reg::X1 => "X1",
        Reg::X2 => "X2",
        Reg::X3 => "X3",
    }
}

fn cond_str(c: CondCode) -> (s: &'static str)
    ensures
        s@ == cond_text(c),
{
    match c {
        CondCode::Eq => "eq",
        CondCode::Gt => "gt",
        CondCode::Lt => "lt",
        CondCode::Ge => "ge",
        CondCode::Le => "le",
    }
}

/// Appends `#<16*slots>` digits for a slot count.
fn append_slot_offset(s: &mut String, slots: usize)
    ensures
        final(s)@ == old(s)@ + dec_digits((16 * slots) as nat),
{
    let bytes: u128 = (slots as u128) * 16;
    proof {
        assert(bytes as nat == (16 * slots) as nat);
    }
    append_dec(s, bytes);
}

/// Renders one assembly line to its text, without a trailing newline.
pub fn render_line(l: &AsmLine) -> (r: String)
    ensures
        r@ == line_text(l@),
{
    match l {
        AsmLine::Global => String::from_str(".global _start"),
        AsmLine::Align => String::from_str(".align 2"),
        AsmLine::StartLabel => String::from_str("_start:"),
        AsmLine::FuncLabel(name) => {
            let mut s = String::from_str("_");
            s.append(name.as_str());
            s.append(":");
            s
        },
        AsmLine::Ret => String::from_str("RET"),
        AsmLine::Push(r) => {
            let mut s = String::from_str("STP ");
            s.append(reg_str(*r));
            s.append(", X9, [SP, #-16]!");
            s
        },
        AsmLine::Pop(r) => {
            let mut s = String::from_str("LDP ");
            s.append(reg_str(*r));
            s.append(", X9, [SP], #16");
            s
        },
        AsmLine::PopAt(r, k) => {
            let mut s = String::from_str("LDP ");
            s.append(reg_str(*r));
            s.append(", X9, [SP, #");
            append_slot_offset(&mut s, *k);
            s.append("]");
            s
        },
        AsmLine::ReleaseSlots(k) => {
            let mut s = String::from_str("ADD SP, SP, #");
            append_slot_offset(&mut s, *k);
            s
        },
        AsmLine::LoadVar(k) => {
            let mut s = String::from_str("LDP X1, X2, [SP, #");
            append_slot_offset(&mut s, *k);
            s.append("]");
            s
        },
        AsmLine::StoreVar(k) => {
            let mut s = String::from_str("STP X1, X2, [SP, #");
            append_slot_offset(&mut s, *k);
            s.append("]");
            s
        },
        AsmLine::MovInt(digits) => {
            let mut s = String::from_str("MOV X1, #");
            s.append(digits.as_str());
            s
        },
        AsmLine::MovBool(b) => {
            if *b {
                String::from_str("MOV X1, #1")
            } else {
                String::from_str("MOV X1, #0")
            }
        },
        AsmLine::CmpX1Zero => String::from_str("cmp X1, 0"),
        AsmLine::BranchEq(n) => {
            let mut s = String::from_str("b.eq label");
            append_dec(&mut s, *n as u128);
            s
        },
        AsmLine::LabelDef(n) => {
            let mut s = String::from_str("label");
            append_dec(&mut s, *n as u128);
            s.append(":");
            s
        },
        AsmLine::MovX2Zero => String::from_str("MOV X2, 0"),
        AsmLine::CmpX2Zero => String::from_str("cmp X2, 0"),
        AsmLine::MovX16One => String::from_str("mov X16, #1"),
        AsmLine::Svc => String::from_str("svc #0x80"),
        AsmLine::CallSaveLink => String::from_str("MOV X29, X30"),
        AsmLine::Bl(name) => {
            let mut s = String::from_str("BL _");
            s.append(name.as_str());
            s
        },
        AsmLine::CallRestoreLink => String::from_str("MOV X30, X29"),
        AsmLine::AddOp => String::from_str("ADD X1, X1, X2"),
        AsmLine::SubOp => String::from_str("SUBS X1, X1, X2"),
        AsmLine::MulOp => String::from_str("MUL X1, X1, X2"),
        AsmLine::DivOp => String::from_str("SDIV X1, X1, X2"),
        AsmLine::CmpOp => String::from_str("CMP X1, X2"),
        AsmLine::Cset(c) => {
            let mut s = String::from_str("CSET X1, ");
            s.append(cond_str(*c));
            s
        },
        AsmLine::MovX0Zero => String::from_str("MOV X0, #0"),
        AsmLine::CmnX1X2 => String::from_str("CMN X1, X2"),
        AsmLine::CsetX0Ne => String::from_str("CSET X0, NE"),
        AsmLine::OrrX0 => String::from_str("ORR X0, X0, X2"),
        AsmLine::MovX3Zero => String::from_str("MOV X3, #0"),
        AsmLine::MovX4Zero => String::from_str("MOV X4, #0"),
        AsmLine::CsetX3Ne => String::from_str("CSET X3, NE"),
        AsmLine::CmnX1X1 => String::from_str("CMN X1, X1"),
        AsmLine::CsetX4Ne => String::from_str("CSET X4, NE"),
        AsmLine::AndX3 => String::from_str("AND X3, X3, X4"),
        AsmLine::Comment(text) => {
            let mut s = String::from_str(";");
            s.append(text.as_str());
            s
        },
    }
}

/// Renders a whole buffer, one string per line.
pub fn render_lines(lines: &Vec<AsmLine>) -> (r: Vec<String>)
    ensures
        r@.len() == lines@.len(),
        forall|i: int| 0 <= i < lines@.len() ==> (#[trigger] r@[i])@ == line_text(lines@[i]@),
{
    let mut out: Vec<String> = Vec::new();
    let n = lines.len();
    let mut i: usize = 0;
    while i < n
        invariant
            i <= n,
            n == lines@.len(),
            out@.len() == i,
            forall|k: int| 0 <= k < i ==> (#[trigger] out@[k])@ == line_text(lines@[k]@),
        decreases n - i,
    {
        let s = render_line(&lines[i]);
        out.push(s);
        i += 1;
    }
    out
}

} // verus!
