use crate::common::Ident;
use crate::ertl::structure::register::PhysicalRegister;
use crate::ertl::structure::Label;
use crate::linearise::x86_64::{Asm, AsmNode, Program, Section, Size, SizedPhysicalRegister, X86Operand};
use vstd::prelude::*;
use vstd::string::StringExecFns;

verus! {

/// The character of the decimal digit `d`.
pub open spec fn digit_char(d: nat) -> char {
    if d == 0 {
        '0'
    } else if d == 1 {
        '1'
    } else if d == 2 {
        '2'
    } else if d == 3 {
        '3'
    } else if d == 4 {
        '4'
    } else if d == 5 {
        '5'
    } else if d == 6 {
        '6'
    } else if d == 7 {
        '7'
    } else if d == 8 {
        '8'
    } else {
        '9'
    }
}

/// The decimal digits of `n`, the most significant first.
pub open spec fn decimal_digits(n: nat) -> Seq<char>
    decreases n,
{
    if n < 10 {
        seq![digit_char(n)]
    } else {
        decimal_digits(n / 10).push(digit_char(n % 10))
    }
}

/// `v` in decimal, with a `-` in front where it is negative.
pub open spec fn decimal(v: int) -> Seq<char> {
    if v < 0 {
        seq!['-'] + decimal_digits((-v) as nat)
    } else {
        decimal_digits(v as nat)
    }
}

/// The decimal digit `d` as a string.
pub fn digit_str(d: u8) -> (r: &'static str)
    requires
        d < 10,
    ensures
        r@ == seq![digit_char(d as nat)],
{
    proof {
        reveal_strlit("0");
        reveal_strlit("1");
        reveal_strlit("2");
        reveal_strlit("3");
        reveal_strlit("4");
        reveal_strlit("5");
        reveal_strlit("6");
        reveal_strlit("7");
        reveal_strlit("8");
        reveal_strlit("9");
    }
    let r = if d == 0 {
        "0"
    } else if d == 1 {
        "1"
    } else if d == 2 {
        "2"
    } else if d == 3 {
        "3"
    } else if d == 4 {
        "4"
    } else if d == 5 {
        "5"
    } else if d == 6 {
        "6"
    } else if d == 7 {
        "7"
    } else if d == 8 {
        "8"
    } else {
        "9"
    };
    assert(r@ =~= seq![digit_char(d as nat)]);
    r
}

/// The digits of `digits`, which are values, as characters, the last first.
pub open spec fn backwards(digits: Seq<u8>) -> Seq<char>
    decreases digits.len(),
{
    if digits.len() == 0 {
        Seq::empty()
    } else {
        seq![digit_char(digits.last() as nat)] + backwards(digits.drop_last())
    }
}

/// Appends `n` in decimal to `out`.
pub fn push_natural(out: &mut String, n: u64)
    ensures
        final(out)@ == old(out)@ + decimal_digits(n as nat),
{
    let mut digits: Vec<u8> = Vec::new();
    let mut m = n;
    while m >= 10
        invariant
            decimal_digits(n as nat) == decimal_digits(m as nat) + backwards(digits@),
            forall|i: int| 0 <= i < digits@.len() ==> digits@[i] < 10,
        decreases m,
    {
        let d = (m % 10) as u8;
        let ghost before = digits@;
        digits.push(d);
        proof {
            assert(digits@.drop_last() =~= before);
            assert(backwards(digits@) =~= seq![digit_char(d as nat)] + backwards(before));
            assert(decimal_digits(m as nat) == decimal_digits((m / 10) as nat).push(
                digit_char((m % 10) as nat),
            ));
            assert(decimal_digits((m / 10) as nat).push(digit_char(d as nat)) + backwards(before)
                =~= decimal_digits((m / 10) as nat) + (seq![digit_char(d as nat)] + backwards(
                before,
            )));
        }
        m = m / 10;
    }
    out.append(digit_str(m as u8));
    let ghost start = out@;
    let ghost all = digits@;
    while digits.len() > 0
        invariant
            forall|i: int| 0 <= i < digits@.len() ==> digits@[i] < 10,
            out@ + backwards(digits@) == start + backwards(all),
        decreases digits@.len(),
    {
        let ghost before = digits@;
        let ghost text = out@;
        match digits.pop() {
            Some(d) => {
                out.append(digit_str(d));
                proof {
                    assert(digits@ =~= before.drop_last());
                    assert(text + backwards(before) =~= (text + seq![digit_char(d as nat)])
                        + backwards(digits@));
                }
            },
            None => {},
        }
    }
    proof {
        assert(backwards(digits@) =~= Seq::<char>::empty());
        assert(out@ =~= out@ + backwards(digits@));
        assert(old(out)@ + decimal_digits(n as nat) =~= (old(out)@ + decimal_digits(m as nat))
            + backwards(all));
    }
}

/// Appends `v` in decimal to `out`.
pub fn push_decimal(out: &mut String, v: i64)
    ensures
        final(out)@ == old(out)@ + decimal(v as int),
{
    if v < 0 {
        proof {
            reveal_strlit("-");
        }
        out.append("-");
        let magnitude: u64 = if v == i64::MIN {
            0x8000_0000_0000_0000
        } else {
            (-v) as u64
        };
        push_natural(out, magnitude);
        assert(out@ =~= old(out)@ + decimal(v as int)) by {
            assert("-"@ =~= seq!['-']);
        }
    } else {
        push_natural(out, v as u64);
    }
}

/// The letter of the width `size` at the end of a mnemonic.
pub open spec fn size_text(size: Size) -> Seq<char> {
    match size {
        Size::B => "b"@,
        Size::W => "w"@,
        Size::L => "l"@,
        Size::Q => "q"@,
    }
}

/// The letter of the width `size` at the end of a mnemonic.
pub fn size_str(size: Size) -> (r: &'static str)
    ensures
        r@ == size_text(size),
{
    match size {
        Size::B => "b",
        Size::W => "w",
        Size::L => "l",
        Size::Q => "q",
    }
}

/// The name of `register` read at the width `size`, after its `%`.
pub open spec fn register_text(register: PhysicalRegister, size: Size) -> Seq<char> {
    match (register, size) {
        (PhysicalRegister::Rax, Size::Q) => "rax"@,
        (PhysicalRegister::Rax, Size::L) => "eax"@,
        (PhysicalRegister::Rax, Size::W) => "ax"@,
        (PhysicalRegister::Rax, Size::B) => "al"@,
        (PhysicalRegister::Rbx, Size::Q) => "rbx"@,
        (PhysicalRegister::Rbx, Size::L) => "ebx"@,
        (PhysicalRegister::Rbx, Size::W) => "bx"@,
        (PhysicalRegister::Rbx, Size::B) => "bl"@,
        (PhysicalRegister::Rcx, Size::Q) => "rcx"@,
        (PhysicalRegister::Rcx, Size::L) => "ecx"@,
        (PhysicalRegister::Rcx, Size::W) => "cx"@,
        (PhysicalRegister::Rcx, Size::B) => "cl"@,
        (PhysicalRegister::Rdx, Size::Q) => "rdx"@,
        (PhysicalRegister::Rdx, Size::L) => "edx"@,
        (PhysicalRegister::Rdx, Size::W) => "dx"@,
        (PhysicalRegister::Rdx, Size::B) => "dl"@,
        (PhysicalRegister::Rdi, Size::Q) => "rdi"@,
        (PhysicalRegister::Rdi, Size::L) => "edi"@,
        (PhysicalRegister::Rdi, Size::W) => "di"@,
        (PhysicalRegister::Rdi, Size::B) => "dil"@,
        (PhysicalRegister::Rsi, Size::Q) => "rsi"@,
        (PhysicalRegister::Rsi, Size::L) => "esi"@,
        (PhysicalRegister::Rsi, Size::W) => "si"@,
        (PhysicalRegister::Rsi, Size::B) => "sil"@,
        (PhysicalRegister::Rbp, Size::Q) => "rbp"@,
        (PhysicalRegister::Rbp, Size::L) => "ebp"@,
        (PhysicalRegister::Rbp, Size::W) => "bp"@,
        (PhysicalRegister::Rbp, Size::B) => "bpl"@,
        (PhysicalRegister::Rsp, Size::Q) => "rsp"@,
        (PhysicalRegister::Rsp, Size::L) => "esp"@,
        (PhysicalRegister::Rsp, Size::W) => "sp"@,
        (PhysicalRegister::Rsp, Size::B) => "spl"@,
        (PhysicalRegister::R8, Size::Q) => "r8"@,
        (PhysicalRegister::R8, Size::L) => "r8d"@,
        (PhysicalRegister::R8, Size::W) => "r8w"@,
        (PhysicalRegister::R8, Size::B) => "r8b"@,
        (PhysicalRegister::R9, Size::Q) => "r9"@,
        (PhysicalRegister::R9, Size::L) => "r9d"@,
        (PhysicalRegister::R9, Size::W) => "r9w"@,
        (PhysicalRegister::R9, Size::B) => "r9b"@,
        (PhysicalRegister::R10, Size::Q) => "r10"@,
        (PhysicalRegister::R10, Size::L) => "r10d"@,
        (PhysicalRegister::R10, Size::W) => "r10w"@,
        (PhysicalRegister::R10, Size::B) => "r10b"@,
        (PhysicalRegister::R11, Size::Q) => "r11"@,
        (PhysicalRegister::R11, Size::L) => "r11d"@,
        (PhysicalRegister::R11, Size::W) => "r11w"@,
        (PhysicalRegister::R11, Size::B) => "r11b"@,
        (PhysicalRegister::R12, Size::Q) => "r12"@,
        (PhysicalRegister::R12, Size::L) => "r12d"@,
        (PhysicalRegister::R12, Size::W) => "r12w"@,
        (PhysicalRegister::R12, Size::B) => "r12b"@,
        (PhysicalRegister::R13, Size::Q) => "r13"@,
        (PhysicalRegister::R13, Size::L) => "r13d"@,
        (PhysicalRegister::R13, Size::W) => "r13w"@,
        (PhysicalRegister::R13, Size::B) => "r13b"@,
        (PhysicalRegister::R14, Size::Q) => "r14"@,
        (PhysicalRegister::R14, Size::L) => "r14d"@,
        (PhysicalRegister::R14, Size::W) => "r14w"@,
        (PhysicalRegister::R14, Size::B) => "r14b"@,
        (PhysicalRegister::R15, Size::Q) => "r15"@,
        (PhysicalRegister::R15, Size::L) => "r15d"@,
        (PhysicalRegister::R15, Size::W) => "r15w"@,
        (PhysicalRegister::R15, Size::B) => "r15b"@,
    }
}

/// The name of `register` read at the width `size`, after its `%`.
pub fn register_str(register: PhysicalRegister, size: Size) -> (r: &'static str)
    ensures
        r@ == register_text(register, size),
{
    match (register, size) {
        (PhysicalRegister::Rax, Size::Q) => "rax",
        (PhysicalRegister::Rax, Size::L) => "eax",
        (PhysicalRegister::Rax, Size::W) => "ax",
        (PhysicalRegister::Rax, Size::B) => "al",
        (PhysicalRegister::Rbx, Size::Q) => "rbx",
        (PhysicalRegister::Rbx, Size::L) => "ebx",
        (PhysicalRegister::Rbx, Size::W) => "bx",
        (PhysicalRegister::Rbx, Size::B) => "bl",
        (PhysicalRegister::Rcx, Size::Q) => "rcx",
        (PhysicalRegister::Rcx, Size::L) => "ecx",
        (PhysicalRegister::Rcx, Size::W) => "cx",
        (PhysicalRegister::Rcx, Size::B) => "cl",
        (PhysicalRegister::Rdx, Size::Q) => "rdx",
        (PhysicalRegister::Rdx, Size::L) => "edx",
        (PhysicalRegister::Rdx, Size::W) => "dx",
        (PhysicalRegister::Rdx, Size::B) => "dl",
        (PhysicalRegister::Rdi, Size::Q) => "rdi",
        (PhysicalRegister::Rdi, Size::L) => "edi",
        (PhysicalRegister::Rdi, Size::W) => "di",
        (PhysicalRegister::Rdi, Size::B) => "dil",
        (PhysicalRegister::Rsi, Size::Q) => "rsi",
        (PhysicalRegister::Rsi, Size::L) => "esi",
        (PhysicalRegister::Rsi, Size::W) => "si",
        (PhysicalRegister::Rsi, Size::B) => "sil",
        (PhysicalRegister::Rbp, Size::Q) => "rbp",
        (PhysicalRegister::Rbp, Size::L) => "ebp",
        (PhysicalRegister::Rbp, Size::W) => "bp",
        (PhysicalRegister::Rbp, Size::B) => "bpl",
        (PhysicalRegister::Rsp, Size::Q) => "rsp",
        (PhysicalRegister::Rsp, Size::L) => "esp",
        (PhysicalRegister::Rsp, Size::W) => "sp",
        (PhysicalRegister::Rsp, Size::B) => "spl",
        (PhysicalRegister::R8, Size::Q) => "r8",
        (PhysicalRegister::R8, Size::L) => "r8d",
        (PhysicalRegister::R8, Size::W) => "r8w",
        (PhysicalRegister::R8, Size::B) => "r8b",
        (PhysicalRegister::R9, Size::Q) => "r9",
        (PhysicalRegister::R9, Size::L) => "r9d",
        (PhysicalRegister::R9, Size::W) => "r9w",
        (PhysicalRegister::R9, Size::B) => "r9b",
        (PhysicalRegister::R10, Size::Q) => "r10",
        (PhysicalRegister::R10, Size::L) => "r10d",
        (PhysicalRegister::R10, Size::W) => "r10w",
        (PhysicalRegister::R10, Size::B) => "r10b",
        (PhysicalRegister::R11, Size::Q) => "r11",
        (PhysicalRegister::R11, Size::L) => "r11d",
        (PhysicalRegister::R11, Size::W) => "r11w",
        (PhysicalRegister::R11, Size::B) => "r11b",
        (PhysicalRegister::R12, Size::Q) => "r12",
        (PhysicalRegister::R12, Size::L) => "r12d",
        (PhysicalRegister::R12, Size::W) => "r12w",
        (PhysicalRegister::R12, Size::B) => "r12b",
        (PhysicalRegister::R13, Size::Q) => "r13",
        (PhysicalRegister::R13, Size::L) => "r13d",
        (PhysicalRegister::R13, Size::W) => "r13w",
        (PhysicalRegister::R13, Size::B) => "r13b",
        (PhysicalRegister::R14, Size::Q) => "r14",
        (PhysicalRegister::R14, Size::L) => "r14d",
        (PhysicalRegister::R14, Size::W) => "r14w",
        (PhysicalRegister::R14, Size::B) => "r14b",
        (PhysicalRegister::R15, Size::Q) => "r15",
        (PhysicalRegister::R15, Size::L) => "r15d",
        (PhysicalRegister::R15, Size::W) => "r15w",
        (PhysicalRegister::R15, Size::B) => "r15b",
    }
}

/// A register as it is written: `%` and its name at the width.
pub open spec fn sized_text(register: SizedPhysicalRegister) -> Seq<char> {
    "%"@ + register_text(register.register, register.size)
}

/// An operand as it is written: `$` and a constant; a register at full
/// width; a displacement with its base in parentheses; or a displacement
/// with base, index and scale.
pub open spec fn operand_text(operand: X86Operand) -> Seq<char> {
    match operand {
        X86Operand::Constant(v) => "$"@ + decimal(v as int),
        X86Operand::Register(r) => "%"@ + register_text(r, Size::Q),
        X86Operand::Offset(o, r) => decimal(o as int) + "(%"@ + register_text(r, Size::Q)
            + ")"@,
        X86Operand::OffsetScale(o, r, s, n) => decimal(o as int) + "(%"@ + register_text(
            r,
            Size::Q,
        ) + ",%"@ + register_text(s, Size::Q) + ","@ + decimal(n as int) + ")"@,
    }
}

/// A label as it is written: `L` and its ordinal.
pub open spec fn label_text(label: Label) -> Seq<char> {
    "L"@ + decimal_digits(label.index as nat)
}

/// The name `name` as it is written: its spelling in `names`, or, where
/// `names` does not hold it, `F` and its ordinal.
pub open spec fn name_text(names: Seq<String>, name: Ident) -> Seq<char> {
    if name.id < names.len() {
        names[name.id as int]@
    } else {
        "F"@ + decimal_digits(name.id as nat)
    }
}

impl SizedPhysicalRegister {
    /// Appends the register as it is written.
    pub fn render(&self, out: &mut String)
        ensures
            final(out)@ == old(out)@ + sized_text(*self),
    {
        out.append("%");
        out.append(register_str(self.register, self.size));
        assert(out@ =~= old(out)@ + sized_text(*self));
    }
}

impl X86Operand {
    /// Appends the operand as it is written.
    pub fn render(&self, out: &mut String)
        ensures
            final(out)@ == old(out)@ + operand_text(*self),
    {
        match self {
            X86Operand::Constant(v) => {
                out.append("$");
                push_decimal(out, *v);
            },
            X86Operand::Register(r) => {
                out.append("%");
                out.append(register_str(*r, Size::Q));
            },
            X86Operand::Offset(o, r) => {
                push_decimal(out, *o);
                out.append("(%");
                out.append(register_str(*r, Size::Q));
                out.append(")");
            },
            X86Operand::OffsetScale(o, r, s, n) => {
                push_decimal(out, *o);
                out.append("(%");
                out.append(register_str(*r, Size::Q));
                out.append(",%");
                out.append(register_str(*s, Size::Q));
                out.append(",");
                push_decimal(out, *n);
                out.append(")");
            },
        }
        assert(out@ =~= old(out)@ + operand_text(*self));
    }
}

/// Appends the label as it is written.
pub fn render_label(label: Label, out: &mut String)
    ensures
        final(out)@ == old(out)@ + label_text(label),
{
    out.append("L");
    push_natural(out, label.index as u64);
    assert(out@ =~= old(out)@ + label_text(label));
}

/// The name as it goes into the assembly: unchanged.
pub fn mangle(name: &str) -> (r: String)
    ensures
        r@ == name@,
{
    name.to_owned()
}

/// Appends the name as it is written.
pub fn render_name(names: &Vec<String>, name: Ident, out: &mut String)
    ensures
        final(out)@ == old(out)@ + name_text(names@, name),
{
    if (name.id as usize) < names.len() {
        let mangled = mangle(names[name.id as usize].as_str());
        out.append(mangled.as_str());
    } else {
        out.append("F");
        push_natural(out, name.id as u64);
        assert(out@ =~= old(out)@ + name_text(names@, name));
    }
}

/// A line with two operands: the mnemonic `head`, the width, and the
/// operands.
pub open spec fn two(head: Seq<char>, size: Size, a: X86Operand, b: X86Operand) -> Seq<char> {
    head + size_text(size) + " "@ + operand_text(a) + ", "@ + operand_text(b)
}

/// A line with one operand.
pub open spec fn one(head: Seq<char>, size: Size, a: X86Operand) -> Seq<char> {
    head + size_text(size) + " "@ + operand_text(a)
}

/// A line of a directive with a number.
pub open spec fn directive(head: Seq<char>, v: int) -> Seq<char> {
    head + decimal(v)
}

/// Appends a line with two operands.
fn render_two(out: &mut String, head: &str, size: Size, a: &X86Operand, b: &X86Operand)
    ensures
        final(out)@ == old(out)@ + two(head@, size, *a, *b),
{
    out.append(head);
    out.append(size_str(size));
    out.append(" ");
    a.render(out);
    out.append(", ");
    b.render(out);
    assert(out@ =~= old(out)@ + two(head@, size, *a, *b));
}

/// Appends a line with one operand.
fn render_one(out: &mut String, head: &str, size: Size, a: &X86Operand)
    ensures
        final(out)@ == old(out)@ + one(head@, size, *a),
{
    out.append(head);
    out.append(size_str(size));
    out.append(" ");
    a.render(out);
    assert(out@ =~= old(out)@ + one(head@, size, *a));
}

/// Appends a jump to a label.
fn render_jump(out: &mut String, head: &str, label: Label)
    ensures
        final(out)@ == old(out)@ + (head@ + label_text(label)),
{
    out.append(head);
    render_label(label, out);
    assert(out@ =~= old(out)@ + (head@ + label_text(label)));
}

/// Appends an instruction on a register.
fn render_set(out: &mut String, head: &str, register: &SizedPhysicalRegister)
    ensures
        final(out)@ == old(out)@ + (head@ + sized_text(*register)),
{
    out.append(head);
    register.render(out);
    assert(out@ =~= old(out)@ + (head@ + sized_text(*register)));
}

/// Appends an instruction on an operand, without a width.
fn render_plain(out: &mut String, head: &str, a: &X86Operand)
    ensures
        final(out)@ == old(out)@ + (head@ + operand_text(*a)),
{
    out.append(head);
    a.render(out);
    assert(out@ =~= old(out)@ + (head@ + operand_text(*a)));
}

/// Appends a directive with a number.
fn render_directive(out: &mut String, head: &str, v: i64)
    ensures
        final(out)@ == old(out)@ + directive(head@, v as int),
{
    out.append(head);
    push_decimal(out, v);
    assert(out@ =~= old(out)@ + directive(head@, v as int));
}

/// A line that names `name`, between `head` and `tail`.
pub open spec fn named(head: Seq<char>, names: Seq<String>, name: Ident, tail: Seq<char>) -> Seq<
    char,
> {
    head + name_text(names, name) + tail
}

/// Appends a line that names `name`, between `head` and `tail`.
fn render_named(out: &mut String, head: &str, names: &Vec<String>, name: Ident, tail: &str)
    ensures
        final(out)@ == old(out)@ + named(head@, names@, name, tail@),
{
    out.append(head);
    render_name(names, name, out);
    out.append(tail);
    assert(out@ =~= old(out)@ + named(head@, names@, name, tail@));
}

/// One line of assembly as it is written, in AT&T syntax: an instruction
/// after a tab, a label at the margin with a colon.
pub open spec fn node_text(names: Seq<String>, node: AsmNode) -> Seq<char> {
    match node {
        AsmNode::Mov(s, a, b) => two("\tmov"@, s, a, b),
        AsmNode::Movz(s1, s2, a, b) => two("\tmovz"@ + size_text(s1), s2, a, b),
        AsmNode::Movs(s1, s2, a, b) => two("\tmovs"@ + size_text(s1), s2, a, b),
        AsmNode::Lea(s, a, b) => two("\tlea"@, s, a, b),
        AsmNode::Inc(s, a) => one("\tinc"@, s, a),
        AsmNode::Dec(s, a) => one("\tdec"@, s, a),
        AsmNode::Neg(s, a) => one("\tneg"@, s, a),
        AsmNode::Add(s, a, b) => two("\tadd"@, s, a, b),
        AsmNode::Sub(s, a, b) => two("\tsub"@, s, a, b),
        AsmNode::Imul(s, a, b) => two("\timul"@, s, a, b),
        AsmNode::IDivq(a) => "\tidivq "@ + operand_text(a),
        AsmNode::Cqto => "\tcqto"@,
        AsmNode::Not(s, a) => one("\tnot"@, s, a),
        AsmNode::And(s, a, b) => two("\tand"@, s, a, b),
        AsmNode::Or(s, a, b) => two("\tor"@, s, a, b),
        AsmNode::Xor(s, a, b) => two("\txor"@, s, a, b),
        AsmNode::Shr(s, a, b) => two("\tshr"@, s, a, b),
        AsmNode::Shl(s, a, b) => two("\tshl"@, s, a, b),
        AsmNode::Sar(s, a, b) => two("\tsar"@, s, a, b),
        AsmNode::Jmp(l) => "\tjmp "@ + label_text(l),
        AsmNode::JmpStar(a) => "\tjmp *"@ + operand_text(a),
        AsmNode::Call(name) => "\tcall "@ + name_text(names, name) + ""@,
        AsmNode::CallStar(a) => "\tcall *"@ + operand_text(a),
        AsmNode::Leave => "\tleave"@,
        AsmNode::Ret => "\tret"@,
        AsmNode::Je(l) => "\tje "@ + label_text(l),
        AsmNode::Jz(l) => "\tjz "@ + label_text(l),
        AsmNode::Jne(l) => "\tjne "@ + label_text(l),
        AsmNode::Jnz(l) => "\tjnz "@ + label_text(l),
        AsmNode::Js(l) => "\tjs "@ + label_text(l),
        AsmNode::Jns(l) => "\tjns "@ + label_text(l),
        AsmNode::Jg(l) => "\tjg "@ + label_text(l),
        AsmNode::Jge(l) => "\tjge "@ + label_text(l),
        AsmNode::Jl(l) => "\tjl "@ + label_text(l),
        AsmNode::Jle(l) => "\tjle "@ + label_text(l),
        AsmNode::Ja(l) => "\tja "@ + label_text(l),
        AsmNode::Jae(l) => "\tjae "@ + label_text(l),
        AsmNode::Jb(l) => "\tjb "@ + label_text(l),
        AsmNode::Jbe(l) => "\tjbe "@ + label_text(l),
        AsmNode::Cmp(s, a, b) => two("\tcmp"@, s, a, b),
        AsmNode::Test(s, a, b) => two("\ttest"@, s, a, b),
        AsmNode::Sete(r) => "\tsete "@ + sized_text(r),
        AsmNode::Setne(r) => "\tsetne "@ + sized_text(r),
        AsmNode::Sets(r) => "\tsets "@ + sized_text(r),
        AsmNode::Setns(r) => "\tsetns "@ + sized_text(r),
        AsmNode::Setg(r) => "\tsetg "@ + sized_text(r),
        AsmNode::Setge(r) => "\tsetge "@ + sized_text(r),
        AsmNode::Setl(r) => "\tsetl "@ + sized_text(r),
        AsmNode::Setle(r) => "\tsetle "@ + sized_text(r),
        AsmNode::Seta(r) => "\tseta "@ + sized_text(r),
        AsmNode::Setae(r) => "\tsetae "@ + sized_text(r),
        AsmNode::Setb(r) => "\tsetb "@ + sized_text(r),
        AsmNode::Setbe(r) => "\tsetbe "@ + sized_text(r),
        AsmNode::Pushq(a) => "\tpushq "@ + operand_text(a),
        AsmNode::Popq(a) => "\tpopq "@ + operand_text(a),
        AsmNode::Align(n) => directive("\t.align "@, n as int),
        AsmNode::DByte(v) => directive("\t.byte "@, v as int),
        AsmNode::DInt(v) => directive("\t.int "@, v as int),
        AsmNode::DWord(v) => directive("\t.word "@, v as int),
        AsmNode::DQuad(v) => directive("\t.quad "@, v as int),
        AsmNode::String(name) => named("\t.string "@, names, name, ""@),
        AsmNode::Address(l) => "\t.quad "@ + label_text(l),
        AsmNode::Space(n) => directive("\t.space "@, n as int),
        AsmNode::Label(l) => label_text(l) + ":"@,
        AsmNode::DeclFun(name) => named(""@, names, name, ":"@),
        AsmNode::Globl(name) => named("\t.globl "@, names, name, ""@),
        AsmNode::Comment(name) => named("#"@, names, name, ""@),
    }
}

impl AsmNode {
    /// Appends the line as it is written.
    #[verifier::rlimit(100)]
    #[verifier::spinoff_prover]
    pub fn render(&self, names: &Vec<String>, out: &mut String)
        ensures
            final(out)@ == old(out)@ + node_text(names@, *self),
    {
        match self {
            AsmNode::Mov(s, a, b) => render_two(out, "\tmov", *s, a, b),
            AsmNode::Movz(s1, s2, a, b) => {
                out.append("\tmovz");
                render_two(out, size_str(*s1), *s2, a, b);
                assert(out@ =~= old(out)@ + node_text(names@, *self));
            },
            AsmNode::Movs(s1, s2, a, b) => {
                out.append("\tmovs");
                render_two(out, size_str(*s1), *s2, a, b);
                assert(out@ =~= old(out)@ + node_text(names@, *self));
            },
            AsmNode::Lea(s, a, b) => render_two(out, "\tlea", *s, a, b),
            AsmNode::Inc(s, a) => render_one(out, "\tinc", *s, a),
            AsmNode::Dec(s, a) => render_one(out, "\tdec", *s, a),
            AsmNode::Neg(s, a) => render_one(out, "\tneg", *s, a),
            AsmNode::Add(s, a, b) => render_two(out, "\tadd", *s, a, b),
            AsmNode::Sub(s, a, b) => render_two(out, "\tsub", *s, a, b),
            AsmNode::Imul(s, a, b) => render_two(out, "\timul", *s, a, b),
            AsmNode::IDivq(a) => render_plain(out, "\tidivq ", a),
            AsmNode::Cqto => {
                out.append("\tcqto");
            },
            AsmNode::Not(s, a) => render_one(out, "\tnot", *s, a),
            AsmNode::And(s, a, b) => render_two(out, "\tand", *s, a, b),
            AsmNode::Or(s, a, b) => render_two(out, "\tor", *s, a, b),
            AsmNode::Xor(s, a, b) => render_two(out, "\txor", *s, a, b),
            AsmNode::Shr(s, a, b) => render_two(out, "\tshr", *s, a, b),
            AsmNode::Shl(s, a, b) => render_two(out, "\tshl", *s, a, b),
            AsmNode::Sar(s, a, b) => render_two(out, "\tsar", *s, a, b),
            AsmNode::Jmp(l) => render_jump(out, "\tjmp ", *l),
            AsmNode::JmpStar(a) => render_plain(out, "\tjmp *", a),
            AsmNode::Call(name) => render_named(out, "\tcall ", names, *name, ""),
            AsmNode::CallStar(a) => render_plain(out, "\tcall *", a),
            AsmNode::Leave => {
                out.append("\tleave");
            },
            AsmNode::Ret => {
                out.append("\tret");
            },
            AsmNode::Je(l) => render_jump(out, "\tje ", *l),
            AsmNode::Jz(l) => render_jump(out, "\tjz ", *l),
            AsmNode::Jne(l) => render_jump(out, "\tjne ", *l),
            AsmNode::Jnz(l) => render_jump(out, "\tjnz ", *l),
            AsmNode::Js(l) => render_jump(out, "\tjs ", *l),
            AsmNode::Jns(l) => render_jump(out, "\tjns ", *l),
            AsmNode::Jg(l) => render_jump(out, "\tjg ", *l),
            AsmNode::Jge(l) => render_jump(out, "\tjge ", *l),
            AsmNode::Jl(l) => render_jump(out, "\tjl ", *l),
            AsmNode::Jle(l) => render_jump(out, "\tjle ", *l),
            AsmNode::Ja(l) => render_jump(out, "\tja ", *l),
            AsmNode::Jae(l) => render_jump(out, "\tjae ", *l),
            AsmNode::Jb(l) => render_jump(out, "\tjb ", *l),
            AsmNode::Jbe(l) => render_jump(out, "\tjbe ", *l),
            AsmNode::Cmp(s, a, b) => render_two(out, "\tcmp", *s, a, b),
            AsmNode::Test(s, a, b) => render_two(out, "\ttest", *s, a, b),
            AsmNode::Sete(r) => render_set(out, "\tsete ", r),
            AsmNode::Setne(r) => render_set(out, "\tsetne ", r),
            AsmNode::Sets(r) => render_set(out, "\tsets ", r),
            AsmNode::Setns(r) => render_set(out, "\tsetns ", r),
            AsmNode::Setg(r) => render_set(out, "\tsetg ", r),
            AsmNode::Setge(r) => render_set(out, "\tsetge ", r),
            AsmNode::Setl(r) => render_set(out, "\tsetl ", r),
            AsmNode::Setle(r) => render_set(out, "\tsetle ", r),
            AsmNode::Seta(r) => render_set(out, "\tseta ", r),
            AsmNode::Setae(r) => render_set(out, "\tsetae ", r),
            AsmNode::Setb(r) => render_set(out, "\tsetb ", r),
            AsmNode::Setbe(r) => render_set(out, "\tsetbe ", r),
            AsmNode::Pushq(a) => render_plain(out, "\tpushq ", a),
            AsmNode::Popq(a) => render_plain(out, "\tpopq ", a),
            AsmNode::Align(n) => render_directive(out, "\t.align ", *n as i64),
            AsmNode::DByte(v) => render_directive(out, "\t.byte ", *v),
            AsmNode::DInt(v) => render_directive(out, "\t.int ", *v),
            AsmNode::DWord(v) => render_directive(out, "\t.word ", *v),
            AsmNode::DQuad(v) => render_directive(out, "\t.quad ", *v),
            AsmNode::String(name) => render_named(out, "\t.string ", names, *name, ""),
            AsmNode::Address(l) => render_jump(out, "\t.quad ", *l),
            AsmNode::Space(n) => render_directive(out, "\t.space ", *n as i64),
            AsmNode::Label(l) => {
                render_label(*l, out);
                out.append(":");
                assert(out@ =~= old(out)@ + node_text(names@, *self));
            },
            AsmNode::DeclFun(name) => render_named(out, "", names, *name, ":"),
            AsmNode::Globl(name) => render_named(out, "\t.globl ", names, *name, ""),
            AsmNode::Comment(name) => render_named(out, "#", names, *name, ""),
        }
    }
}

/// The first `n` lines of `nodes`, each with the end of its line.
pub open spec fn lines_text(names: Seq<String>, nodes: Seq<AsmNode>, n: nat) -> Seq<char>
    decreases n,
{
    if n == 0 || n > nodes.len() {
        Seq::empty()
    } else {
        lines_text(names, nodes, (n - 1) as nat) + node_text(names, nodes[n - 1]) + "\n"@
    }
}

impl Asm {
    /// Appends the lines, each with the end of its line.
    pub fn render(&self, names: &Vec<String>, out: &mut String)
        ensures
            final(out)@ == old(out)@ + lines_text(names@, self@, self@.len()),
    {
        let mut i: usize = 0;
        assert(out@ =~= old(out)@ + lines_text(names@, self@, 0));
        while i < self.nodes.len()
            invariant
                i <= self.nodes@.len(),
                out@ == old(out)@ + lines_text(names@, self@, i as nat),
            decreases self.nodes@.len() - i,
        {
            let ghost before = out@;
            self.nodes[i].render(names, out);
            out.append("\n");
            i = i + 1;
            assert(out@ =~= old(out)@ + lines_text(names@, self@, i as nat));
        }
    }
}

/// A section as it is written: its directive, then its lines.
pub open spec fn section_text(names: Seq<String>, section: Section) -> Seq<char> {
    match section {
        Section::Text(code) => "\t.text\n"@ + lines_text(names, code@, code@.len()),
        Section::Data(code) => "\t.data\n"@ + lines_text(names, code@, code@.len()),
    }
}

/// The first `n` sections of `sections` as they are written.
pub open spec fn sections_text(names: Seq<String>, sections: Seq<Section>, n: nat) -> Seq<char>
    decreases n,
{
    if n == 0 || n > sections.len() {
        Seq::empty()
    } else {
        sections_text(names, sections, (n - 1) as nat) + section_text(names, sections[n - 1])
    }
}

impl Section {
    /// Appends the section as it is written.
    pub fn render(&self, names: &Vec<String>, out: &mut String)
        ensures
            final(out)@ == old(out)@ + section_text(names@, *self),
    {
        match self {
            Section::Text(code) => {
                out.append("\t.text\n");
                code.render(names, out);
            },
            Section::Data(code) => {
                out.append("\t.data\n");
                code.render(names, out);
            },
        }
        assert(out@ =~= old(out)@ + section_text(names@, *self));
    }
}

impl Program {
    /// The program as it is written: its sections in order, with the names
    /// spelt as in `names`.
    pub fn render(&self, names: &Vec<String>) -> (r: String)
        ensures
            r@ == sections_text(names@, self.sections@, self.sections@.len()),
    {
        let mut out = String::new();
        let mut i: usize = 0;
        assert(out@ =~= sections_text(names@, self.sections@, 0));
        while i < self.sections.len()
            invariant
                i <= self.sections@.len(),
                out@ == sections_text(names@, self.sections@, i as nat),
            decreases self.sections@.len() - i,
        {
            self.sections[i].render(names, &mut out);
            i = i + 1;
        }
        out
    }
}

} // verus!
