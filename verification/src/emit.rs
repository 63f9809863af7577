//! The generator's output model: one value per emitted assembly line, and
//! the rendering of a line sequence to the final assembly text.
//!
//! Variable slots are stored as slot indices; rendering multiplies by the
//! word size.  Jump targets are label numbers rendered as `.LB<n>`.
use vstd::prelude::*;
use vstd::string::StringExecFns;

verus! {

/// The registers the generator uses.
#[derive(Clone, Copy, PartialEq, Eq, Structural, Debug)]
pub enum Reg {
    Rax,
    Rbx,
    Rcx,
    Rdx,
    Rdi,
    Rsi,
    R8,
    R9,
    R10,
}

/// The six comparison conditions, as `set<cc>` suffixes.
#[derive(Clone, Copy, PartialEq, Eq, Structural, Debug)]
pub enum CmpKind {
    Eq,
    Ne,
    Gt,
    Ge,
    Lt,
    Le,
}

/// One emitted assembly line.
#[derive(Clone, Copy, PartialEq, Eq, Structural, Debug)]
pub enum AsmLine {
    /// `mov <reg>, <n>`
    MovImm(Reg, usize),
    /// `mov <dst>, <src>`
    MovReg(Reg, Reg),
    /// `mov <reg>, QWORD [rsp + 8*<slot>]`
    LoadVar(Reg, usize),
    /// `mov QWORD [rsp + 8*<slot>], <reg>`
    StoreVar(usize, Reg),
    /// `mov QWORD [rsp + 8*<slot>], <n>`
    StoreImm(usize, usize),
    /// `inc QWORD [rsp + 8*<slot>]`
    IncVar(usize),
    /// `dec QWORD [rsp + 8*<slot>]`
    DecVar(usize),
    Add(Reg, Reg),
    Sub(Reg, Reg),
    Imul(Reg, Reg),
    Xor(Reg, Reg),
    Div(Reg),
    /// `cmp rax, rbx`
    CmpRaxRbx,
    /// `set<cc> al`
    SetCmp(CmpKind),
    /// `movzx rax, al`
    MovzxRaxAl,
    /// `test al, 1`
    TestAl1,
    Jmp(usize),
    Jz(usize),
    Jnz(usize),
    Label(usize),
    Push(Reg),
    Pop(Reg),
    Syscall,
}

/// The decimal digit character for a value below ten.
pub open spec fn dec_digit(d: int) -> char {
    ((48 + d) as u8) as char
}

/// The decimal text of a non-negative number, most significant digit first.
pub open spec fn dec_nat(n: int) -> Seq<char>
    decreases n,
{
    if n < 10 {
        seq![dec_digit(n)]
    } else {
        dec_nat(n / 10).push(dec_digit(n % 10))
    }
}

pub open spec fn reg_name(rg: Reg) -> Seq<char> {
    match rg {
        Reg::Rax => "rax"@,
        Reg::Rbx => "rbx"@,
        Reg::Rcx => "rcx"@,
        Reg::Rdx => "rdx"@,
        Reg::Rdi => "rdi"@,
        Reg::Rsi => "rsi"@,
        Reg::R8 => "r8"@,
        Reg::R9 => "r9"@,
        Reg::R10 => "r10"@,
    }
}

pub open spec fn cmp_name(k: CmpKind) -> Seq<char> {
    match k {
        CmpKind::Eq => "sete"@,
        CmpKind::Ne => "setne"@,
        CmpKind::Gt => "setg"@,
        CmpKind::Ge => "setge"@,
        CmpKind::Lt => "setl"@,
        CmpKind::Le => "setle"@,
    }
}

/// The text of one assembly line, newline included.
pub open spec fn line_text(l: AsmLine) -> Seq<char> {
    match l {
        AsmLine::MovImm(rg, n) => "\tmov "@ + reg_name(rg) + ", "@ + dec_nat(n as int) + "\n"@,
        AsmLine::MovReg(d, s) => "\tmov "@ + reg_name(d) + ", "@ + reg_name(s) + "\n"@,
        AsmLine::LoadVar(rg, slot) => "\tmov "@ + reg_name(rg) + ", QWORD [rsp + "@ + dec_nat(
            8 * slot as int,
        ) + "]\n"@,
        AsmLine::StoreVar(slot, rg) => "\tmov QWORD [rsp + "@ + dec_nat(8 * slot as int) + "], "@
            + reg_name(rg) + "\n"@,
        AsmLine::StoreImm(slot, n) => "\tmov QWORD [rsp + "@ + dec_nat(8 * slot as int) + "], "@
            + dec_nat(n as int) + "\n"@,
        AsmLine::IncVar(slot) => "\tinc QWORD [rsp + "@ + dec_nat(8 * slot as int) + "]\n"@,
        AsmLine::DecVar(slot) => "\tdec QWORD [rsp + "@ + dec_nat(8 * slot as int) + "]\n"@,
        AsmLine::Add(a, b) => "\tadd "@ + reg_name(a) + ", "@ + reg_name(b) + "\n"@,
        AsmLine::Sub(a, b) => "\tsub "@ + reg_name(a) + ", "@ + reg_name(b) + "\n"@,
        AsmLine::Imul(a, b) => "\timul "@ + reg_name(a) + ", "@ + reg_name(b) + "\n"@,
        AsmLine::Xor(a, b) => "\txor "@ + reg_name(a) + ", "@ + reg_name(b) + "\n"@,
        AsmLine::Div(rg) => "\tdiv "@ + reg_name(rg) + "\n"@,
        AsmLine::CmpRaxRbx => "\tcmp rax, rbx\n"@,
        AsmLine::SetCmp(k) => "\t"@ + cmp_name(k) + " al\n"@,
        AsmLine::MovzxRaxAl => "\tmovzx rax, al\n"@,
        AsmLine::TestAl1 => "\ttest al, 1\n"@,
        AsmLine::Jmp(n) => "\tjmp .LB"@ + dec_nat(n as int) + "\n"@,
        AsmLine::Jz(n) => "\tjz .LB"@ + dec_nat(n as int) + "\n"@,
        AsmLine::Jnz(n) => "\tjnz .LB"@ + dec_nat(n as int) + "\n"@,
        AsmLine::Label(n) => ".LB"@ + dec_nat(n as int) + ":\n"@,
        AsmLine::Push(rg) => "\tpush "@ + reg_name(rg) + "\n"@,
        AsmLine::Pop(rg) => "\tpop "@ + reg_name(rg) + "\n"@,
        AsmLine::Syscall => "\tsyscall\n"@,
    }
}

/// The text of a line sequence, in order.
pub open spec fn render_lines(ls: Seq<AsmLine>) -> Seq<char>
    decreases ls.len(),
{
    if ls.len() == 0 {
        Seq::empty()
    } else {
        line_text(ls[0]) + render_lines(ls.drop_first())
    }
}

/// The fixed text-section header and entry point.
pub open spec fn header_text() -> Seq<char> {
    "section .text\n\tglobal _start\n_start:\n"@
}

/// The complete assembly text: header, entry point, then every line.
pub open spec fn render_program(ls: Seq<AsmLine>) -> Seq<char> {
    header_text() + render_lines(ls)
}

proof fn lemma_render_lines_push(ls: Seq<AsmLine>, x: AsmLine)
    ensures
        render_lines(ls.push(x)) == render_lines(ls) + line_text(x),
    decreases ls.len(),
{
    if ls.len() == 0 {
        assert(ls.push(x)[0] == x);
        assert(ls.push(x).drop_first() =~= Seq::<AsmLine>::empty());
        assert(render_lines(ls.push(x)) == line_text(x) + render_lines(
            Seq::<AsmLine>::empty(),
        ));
        assert(render_lines(Seq::<AsmLine>::empty()) == Seq::<char>::empty());
        assert(render_lines(ls) == Seq::<char>::empty());
        assert(line_text(x) + Seq::<char>::empty() =~= Seq::<char>::empty() + line_text(x));
    } else {
        assert(ls.push(x).drop_first() =~= ls.drop_first().push(x));
        lemma_render_lines_push(ls.drop_first(), x);
        assert(ls.push(x)[0] == ls[0]);
        assert(render_lines(ls.push(x)) == line_text(ls[0]) + (render_lines(ls.drop_first())
            + line_text(x)));
        assert(line_text(ls[0]) + (render_lines(ls.drop_first()) + line_text(x)) =~= (line_text(
            ls[0],
        ) + render_lines(ls.drop_first())) + line_text(x));
    }
}

/// The decimal digit below ten, as a one-character string.
fn digit_str(d: u128) -> (s: &'static str)
    requires
        d < 10,
    ensures
        s@ == seq![dec_digit(d as int)],
{
    let s: &'static str = if d == 0 {
        "0"
    } else if d == 1 {
        "1"
    } else if d == 2 {
        "2"
    } else if d == 3 {
        "3"
    } else if d == 4 {
        "4"
    } else if d == 5 {
        "5"
    } else if d == 6 {
        "6"
    } else if d == 7 {
        "7"
    } else if d == 8 {
        "8"
    } else {
        "9"
    };
    proof {
        reveal_strlit("0");
        reveal_strlit("1");
        reveal_strlit("2");
        reveal_strlit("3");
        reveal_strlit("4");
        reveal_strlit("5");
        reveal_strlit("6");
        reveal_strlit("7");
        reveal_strlit("8");
        reveal_strlit("9");
        assert(s@ =~= seq![dec_digit(d as int)]);
    }
    s
}

/// The decimal text of a number.
fn fmt_num(n: u128) -> (s: String)
    ensures
        s@ == dec_nat(n as int),
    decreases n,
{
    if n < 10 {
        digit_str(n).to_owned()
    } else {
        let mut s = fmt_num(n / 10);
        s.append(digit_str(n % 10));
        proof {
            assert(s@ =~= dec_nat(n as int));
        }
        s
    }
}

fn reg_str(rg: Reg) -> (s: &'static str)
    ensures
        s@ == reg_name(rg),
{
    match rg {
        Reg::Rax => "rax",
        Reg::Rbx => "rbx",
        Reg::Rcx => "rcx",
        Reg::Rdx => "rdx",
        Reg::Rdi => "rdi",
        Reg::Rsi => "rsi",
        Reg::R8 => "r8",
        Reg::R9 => "r9",
        Reg::R10 => "r10",
    }
}

fn cmp_str(k: CmpKind) -> (s: &'static str)
    ensures
        s@ == cmp_name(k),
{
    match k {
        CmpKind::Eq => "sete",
        CmpKind::Ne => "setne",
        CmpKind::Gt => "setg",
        CmpKind::Ge => "setge",
        CmpKind::Lt => "setl",
        CmpKind::Le => "setle",
    }
}

/// Render the slot's byte offset `8*slot`; the product is computed in a
/// wider type, so no slot index can overflow it.
fn fmt_offset(slot: usize) -> (s: String)
    ensures
        s@ == dec_nat(8 * slot as int),
{
    fmt_num(8u128 * (slot as u128))
}

/// The text of one assembly line.
fn render_line(l: AsmLine) -> (s: String)
    ensures
        s@ == line_text(l),
{
    let mut s = String::new();
    match l {
        AsmLine::MovImm(rg, n) => {
            s.append("\tmov ");
            s.append(reg_str(rg));
            s.append(", ");
            s.append(fmt_num(n as u128).as_str());
            s.append("\n");
        },
        AsmLine::MovReg(d, src) => {
            s.append("\tmov ");
            s.append(reg_str(d));
            s.append(", ");
            s.append(reg_str(src));
            s.append("\n");
        },
        AsmLine::LoadVar(rg, slot) => {
            s.append("\tmov ");
            s.append(reg_str(rg));
            s.append(", QWORD [rsp + ");
            s.append(fmt_offset(slot).as_str());
            s.append("]\n");
        },
        AsmLine::StoreVar(slot, rg) => {
            s.append("\tmov QWORD [rsp + ");
            s.append(fmt_offset(slot).as_str());
            s.append("], ");
            s.append(reg_str(rg));
            s.append("\n");
        },
        AsmLine::StoreImm(slot, n) => {
            s.append("\tmov QWORD [rsp + ");
            s.append(fmt_offset(slot).as_str());
            s.append("], ");
            s.append(fmt_num(n as u128).as_str());
            s.append("\n");
        },
        AsmLine::IncVar(slot) => {
            s.append("\tinc QWORD [rsp + ");
            s.append(fmt_offset(slot).as_str());
            s.append("]\n");
        },
        AsmLine::DecVar(slot) => {
            s.append("\tdec QWORD [rsp + ");
            s.append(fmt_offset(slot).as_str());
            s.append("]\n");
        },
        AsmLine::Add(a, b) => {
            s.append("\tadd ");
            s.append(reg_str(a));
            s.append(", ");
            s.append(reg_str(b));
            s.append("\n");
        },
        AsmLine::Sub(a, b) => {
            s.append("\tsub ");
            s.append(reg_str(a));
            s.append(", ");
            s.append(reg_str(b));
            s.append("\n");
        },
        AsmLine::Imul(a, b) => {
            s.append("\timul ");
            s.append(reg_str(a));
            s.append(", ");
            s.append(reg_str(b));
            s.append("\n");
        },
        AsmLine::Xor(a, b) => {
            s.append("\txor ");
            s.append(reg_str(a));
            s.append(", ");
            s.append(reg_str(b));
            s.append("\n");
        },
        AsmLine::Div(rg) => {
            s.append("\tdiv ");
            s.append(reg_str(rg));
            s.append("\n");
        },
        AsmLine::CmpRaxRbx => {
            s.append("\tcmp rax, rbx\n");
        },
        AsmLine::SetCmp(k) => {
            s.append("\t");
            s.append(cmp_str(k));
            s.append(" al\n");
        },
        AsmLine::MovzxRaxAl => {
            s.append("\tmovzx rax, al\n");
        },
        AsmLine::TestAl1 => {
            s.append("\ttest al, 1\n");
        },
        AsmLine::Jmp(n) => {
            s.append("\tjmp .LB");
            s.append(fmt_num(n as u128).as_str());
            s.append("\n");
        },
        AsmLine::Jz(n) => {
            s.append("\tjz .LB");
            s.append(fmt_num(n as u128).as_str());
            s.append("\n");
        },
        AsmLine::Jnz(n) => {
            s.append("\tjnz .LB");
            s.append(fmt_num(n as u128).as_str());
            s.append("\n");
        },
        AsmLine::Label(n) => {
            s.append(".LB");
            s.append(fmt_num(n as u128).as_str());
            s.append(":\n");
        },
        AsmLine::Push(rg) => {
            s.append("\tpush ");
            s.append(reg_str(rg));
            s.append("\n");
        },
        AsmLine::Pop(rg) => {
            s.append("\tpop ");
            s.append(reg_str(rg));
            s.append("\n");
        },
        AsmLine::Syscall => {
            s.append("\tsyscall\n");
        },
    }
    proof {
        assert(s@ =~= line_text(l));
    }
    s
}

/// Render the whole program: the fixed header, then every line in order.
pub fn render_program_exec(lines: &Vec<AsmLine>) -> (s: String)
    ensures
        s@ == render_program(lines@),
{
    let mut s = String::new();
    s.append("section .text\n\tglobal _start\n_start:\n");
    let mut i: usize = 0;
    proof {
        assert(lines@.take(0) =~= Seq::<AsmLine>::empty());
        assert(s@ =~= header_text() + render_lines(lines@.take(0)));
    }
    while i < lines.len()
        invariant
            i <= lines@.len(),
            s@ == header_text() + render_lines(lines@.take(i as int)),
        decreases lines@.len() - i,
    {
        let line = lines[i];
        let t = render_line(line);
        s.append(t.as_str());
        proof {
            assert(lines@.take(i + 1) =~= lines@.take(i as int).push(line));
            lemma_render_lines_push(lines@.take(i as int), line);
            assert((header_text() + render_lines(lines@.take(i as int))) + line_text(line)
                =~= header_text() + (render_lines(lines@.take(i as int)) + line_text(line)));
        }
        i = i + 1;
    }
    proof {
        assert(lines@.take(lines@.len() as int) =~= lines@);
    }
    s
}

} // verus!
