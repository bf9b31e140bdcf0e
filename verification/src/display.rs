//! Textual rendering of MIR bodies, as the checker shows them when asked
//! for a MIR display. The debug texts of rustc's own values are carried as
//! strings; the layout around them is computed here.
use vstd::prelude::*;
use vstd::string::StringExecFns;

use crate::text::str_eq;

verus! {

/// How much of the MIR is shown.
#[derive(Debug, Copy, Clone, Hash, PartialEq, Eq, Structural)]
pub enum MirDisplay {
    Verbose,
    VeryVerobse,
    Disabled,
}

/// The display asked for by the value of `MIR_DISPLAY`.
pub open spec fn display_mode(value: Option<Seq<char>>) -> MirDisplay {
    match value {
        Some(v) => if v == "VERBOSE"@ {
            MirDisplay::Verbose
        } else if v == "VERY VERBOSE"@ {
            MirDisplay::VeryVerobse
        } else {
            MirDisplay::Disabled
        },
        None => MirDisplay::Disabled,
    }
}

/// The display asked for by `value`, the value of `MIR_DISPLAY` if it is
/// set.
pub fn mir_display(value: Option<&str>) -> (r: MirDisplay)
    ensures
        r == display_mode(
            match value {
                Some(v) => Some(v@),
                None => None,
            },
        ),
{
    match value {
        Some(v) => if str_eq(v, "VERBOSE") {
            MirDisplay::Verbose
        } else if str_eq(v, "VERY VERBOSE") {
            MirDisplay::VeryVerobse
        } else {
            MirDisplay::Disabled
        },
        None => MirDisplay::Disabled,
    }
}

/// The MIR is shown.
pub open spec fn verbose(m: MirDisplay) -> bool {
    m != MirDisplay::Disabled
}

/// The MIR is shown with explanations.
pub open spec fn very_verbose(m: MirDisplay) -> bool {
    m == MirDisplay::VeryVerobse
}

/// Whether `MIR_DISPLAY`, of value `value`, asks for the MIR to be shown.
pub fn is_display_verbose(value: Option<&str>) -> (r: bool)
    ensures
        r == verbose(
            display_mode(
                match value {
                    Some(v) => Some(v@),
                    None => None,
                },
            ),
        ),
{
    let m = mir_display(value);
    match m {
        MirDisplay::Disabled => false,
        _ => true,
    }
}

/// Whether `MIR_DISPLAY`, of value `value`, asks for the MIR to be shown
/// with explanations.
pub fn is_display_very_verbose(value: Option<&str>) -> (r: bool)
    ensures
        r == very_verbose(
            display_mode(
                match value {
                    Some(v) => Some(v@),
                    None => None,
                },
            ),
        ),
{
    let m = mir_display(value);
    match m {
        MirDisplay::VeryVerobse => true,
        _ => false,
    }
}

/// The end of a line.
pub open spec fn next_line() -> Seq<char> {
    seq!['\n']
}

/// The indentation of statements and terminators.
pub open spec fn padding() -> Seq<char> {
    seq![' ', ' ', ' ', ' ']
}

/// What separates a value from its explanation.
pub open spec fn explain() -> Seq<char> {
    seq![' ', ' ', '|', ':', '-', '>', '|', ' ', ' ']
}

fn push_next_line(s: &mut String)
    ensures
        final(s)@ == old(s)@ + next_line(),
{
    s.append("\n");
    proof {
        reveal_strlit("\n");
    }
}

fn push_padding(s: &mut String)
    ensures
        final(s)@ == old(s)@ + padding(),
{
    s.append("    ");
    proof {
        reveal_strlit("    ");
    }
}

fn push_explain(s: &mut String)
    ensures
        final(s)@ == old(s)@ + explain(),
{
    s.append("  |:->|  ");
    proof {
        reveal_strlit("  |:->|  ");
    }
}

// ---------------------------------------------------------------------------
// Numbers

/// The decimal digit of `d`.
pub open spec fn digit_char(d: nat) -> char {
    seq!['0', '1', '2', '3', '4', '5', '6', '7', '8', '9'][d as int]
}

/// The decimal text of `n`, without leading zeros.
pub open spec fn decimal(n: nat) -> Seq<char>
    decreases n,
{
    if n < 10 {
        seq![digit_char(n)]
    } else {
        decimal(n / 10).push(digit_char(n % 10))
    }
}

fn digit_exec(d: usize) -> (c: char)
    requires
        d < 10,
    ensures
        c == digit_char(d as nat),
{
    if d == 0 {
        '0'
    } else if d == 1 {
        '1'
    } else if d == 2 {
        '2'
    } else if d == 3 {
        '3'
    } else if d == 4 {
        '4'
    } else if d == 5 {
        '5'
    } else if d == 6 {
        '6'
    } else if d == 7 {
        '7'
    } else if d == 8 {
        '8'
    } else {
        '9'
    }
}

/// The decimal text of `n`.
pub fn decimal_string(n: usize) -> (r: String)
    ensures
        r@ == decimal(n as nat),
    decreases n,
{
    if n < 10 {
        let mut cs: Vec<char> = Vec::new();
        cs.push(digit_exec(n));
        assert(cs@ =~= decimal(n as nat));
        crate::text::string_of_chars(&cs)
    } else {
        let mut s = decimal_string(n / 10);
        let mut cs: Vec<char> = Vec::new();
        cs.push(digit_exec(n % 10));
        let last = crate::text::string_of_chars(&cs);
        s.append(last.as_str());
        assert(s@ =~= decimal(n as nat));
        s
    }
}

// ---------------------------------------------------------------------------
// The model of MIR

/// The kinds of terminators. A call records the index of the function
/// item it calls, when the callee is one.
pub enum TerminatorKind {
    Goto,
    SwitchInt,
    Resume,
    Abort,
    Return,
    Unreachable,
    Drop,
    DropAndReplace,
    Call { fn_def: Option<usize> },
    Assert,
    Yield,
    GeneratorDrop,
    FalseEdge,
    FalseUnwind,
    InlineAsm,
}

/// A terminator: its kind, and rustc's debug text of the kind.
pub struct Terminator {
    pub kind: TerminatorKind,
    pub kind_debug: String,
}

/// The kinds of rvalues.
pub enum Rvalue {
    Use,
    Repeat,
    Ref,
    ThreadLocalRef,
    AddressOf,
    Len,
    Cast,
    BinaryOp,
    CheckedBinaryOp,
    NullaryOp,
    UnaryOp,
    Discriminant,
    Aggregate,
    ShallowInitBox,
}

/// The kinds of statements. An assignment records rustc's debug text of
/// its place and the kind of its rvalue.
pub enum StatementKind {
    Assign { place_debug: String, rvalue: Rvalue },
    FakeRead,
    SetDiscriminant,
    StorageLive,
    StorageDead,
    Retag,
    AscribeUserType,
    Coverage,
    CopyNonOverlapping,
    Nop,
}

/// A statement: its kind, and rustc's debug text of the kind.
pub struct Statement {
    pub kind: StatementKind,
    pub kind_debug: String,
}

/// A basic block: whether it is a cleanup block, its statements and its
/// terminator.
pub struct BasicBlockData {
    pub is_cleanup: bool,
    pub statements: Vec<Statement>,
    pub terminator: Terminator,
}

/// A local: rustc's debug texts of its type and of the type's kind.
pub struct LocalDecl {
    pub ty_debug: String,
    pub ty_kind_debug: String,
}

/// A MIR body: its locals and its basic blocks.
pub struct Body {
    pub local_decls: Vec<LocalDecl>,
    pub basic_blocks: Vec<BasicBlockData>,
}

/// Values that the MIR display can show.
pub trait Display {
    /// The text shown for the value under the display `mode`.
    fn display(&self, mode: MirDisplay) -> String;
}

// ---------------------------------------------------------------------------
// What is shown

/// The name of a terminator kind; for a call of a function item, the
/// index of the item.
pub open spec fn terminator_kind_name(k: TerminatorKind) -> Seq<char> {
    match k {
        TerminatorKind::Goto => "Goto"@,
        TerminatorKind::SwitchInt => "SwitchInt"@,
        TerminatorKind::Resume => "Resume"@,
        TerminatorKind::Abort => "Abort"@,
        TerminatorKind::Return => "Return"@,
        TerminatorKind::Unreachable => "Unreachable"@,
        TerminatorKind::Drop => "Drop"@,
        TerminatorKind::DropAndReplace => "DropAndReplace"@,
        TerminatorKind::Assert => "Assert"@,
        TerminatorKind::Yield => "Yield"@,
        TerminatorKind::GeneratorDrop => "GeneratorDrop"@,
        TerminatorKind::FalseEdge => "FalseEdge"@,
        TerminatorKind::FalseUnwind => "FalseUnwind"@,
        TerminatorKind::InlineAsm => "InlineAsm"@,
        TerminatorKind::Call { fn_def } => match fn_def {
            Some(id) => "Call FnDef ID is "@ + decimal(id as nat),
            None => Seq::empty(),
        },
    }
}

/// What a terminator kind shows: its name after the separator, with
/// explanations only.
pub open spec fn terminator_kind_text(k: TerminatorKind, m: MirDisplay) -> Seq<char> {
    if very_verbose(m) {
        explain() + terminator_kind_name(k)
    } else {
        Seq::empty()
    }
}

/// What a terminator shows: its debug text and its kind's explanation,
/// indented.
pub open spec fn terminator_text(t: Terminator, m: MirDisplay) -> Seq<char> {
    if verbose(m) {
        padding() + t.kind_debug@ + terminator_kind_text(t.kind, m)
    } else {
        Seq::empty()
    }
}

/// The name of an rvalue kind.
pub open spec fn rvalue_name(r: Rvalue) -> Seq<char> {
    match r {
        Rvalue::Use => "Rvalue Use"@,
        Rvalue::Repeat => "Rvalue Repeat"@,
        Rvalue::Ref => "Rvalue Ref"@,
        Rvalue::ThreadLocalRef => "Rvalue ThreadLocalRef"@,
        Rvalue::AddressOf => "Rvalue AddressOf"@,
        Rvalue::Len => "Rvalue Len"@,
        Rvalue::Cast => "Rvalue Cast"@,
        Rvalue::BinaryOp => "Rvalue BinaryOp"@,
        Rvalue::CheckedBinaryOp => "Rvalue CheckedBinaryOp"@,
        Rvalue::NullaryOp => "Rvalue NullaryOp"@,
        Rvalue::UnaryOp => "Rvalue UnaryOp"@,
        Rvalue::Discriminant => "Rvalue Discriminant"@,
        Rvalue::Aggregate => "Rvalue Aggregate"@,
        Rvalue::ShallowInitBox => "Rvalue ShallowInitBox"@,
    }
}

/// What an rvalue shows: its name, with explanations only.
pub open spec fn rvalue_text(r: Rvalue, m: MirDisplay) -> Seq<char> {
    if very_verbose(m) {
        rvalue_name(r)
    } else {
        Seq::empty()
    }
}

/// The explanation of a statement kind; an assignment adds its place and
/// its rvalue.
pub open spec fn statement_kind_name(k: StatementKind, m: MirDisplay) -> Seq<char> {
    match k {
        StatementKind::Assign { place_debug, rvalue } => "Assign"@ + explain() + place_debug@ + " "@
            + rvalue_text(rvalue, m),
        StatementKind::FakeRead => "FakeRead"@,
        StatementKind::SetDiscriminant => "SetDiscriminant"@,
        StatementKind::StorageLive => "StorageLive"@,
        StatementKind::StorageDead => "StorageDead"@,
        StatementKind::Retag => "Retag"@,
        StatementKind::AscribeUserType => "AscribeUserType"@,
        StatementKind::Coverage => "Coverage"@,
        StatementKind::CopyNonOverlapping => "CopyNonOverlapping"@,
        StatementKind::Nop => "Nop"@,
    }
}

/// What a statement kind shows, with explanations only.
pub open spec fn statement_kind_text(k: StatementKind, m: MirDisplay) -> Seq<char> {
    if very_verbose(m) {
        explain() + statement_kind_name(k, m)
    } else {
        Seq::empty()
    }
}

/// What a statement shows: its debug text and its kind's explanation,
/// indented.
pub open spec fn statement_text(s: Statement, m: MirDisplay) -> Seq<char> {
    if verbose(m) {
        padding() + s.kind_debug@ + statement_kind_text(s.kind, m)
    } else {
        Seq::empty()
    }
}

/// Each statement of `ss` on a line of its own.
pub open spec fn statements_text(ss: Seq<Statement>, m: MirDisplay) -> Seq<char>
    decreases ss.len(),
{
    if ss.len() == 0 {
        Seq::empty()
    } else {
        statements_text(ss.drop_last(), m) + statement_text(ss.last(), m) + next_line()
    }
}

/// The text of a boolean.
pub open spec fn bool_text(b: bool) -> Seq<char> {
    if b {
        "true"@
    } else {
        "false"@
    }
}

/// What a basic block shows: whether it is a cleanup block, then its
/// statements and its terminator, each on a line.
pub open spec fn block_text(b: BasicBlockData, m: MirDisplay) -> Seq<char> {
    if verbose(m) {
        "clean_up:"@ + explain() + bool_text(b.is_cleanup) + next_line() + statements_text(b.statements@, m)
            + terminator_text(b.terminator, m) + next_line()
    } else {
        Seq::empty()
    }
}

/// The blocks of `bs`, numbered from 0, each in braces.
pub open spec fn blocks_text(bs: Seq<BasicBlockData>, m: MirDisplay) -> Seq<char>
    decreases bs.len(),
{
    if bs.len() == 0 {
        Seq::empty()
    } else {
        blocks_text(bs.drop_last(), m) + "bb "@ + decimal((bs.len() - 1) as nat) + " {"@ + next_line()
            + block_text(bs.last(), m) + "}"@ + next_line()
    }
}

/// What the blocks of a body show.
pub open spec fn basic_blocks_text(bs: Seq<BasicBlockData>, m: MirDisplay) -> Seq<char> {
    if verbose(m) {
        blocks_text(bs, m)
    } else {
        Seq::empty()
    }
}

/// What a type kind shows: its debug text.
pub open spec fn ty_kind_text(d: Seq<char>, m: MirDisplay) -> Seq<char> {
    if verbose(m) {
        d
    } else {
        Seq::empty()
    }
}

/// What a local shows: its type, and with explanations the type's kind.
pub open spec fn local_text(l: LocalDecl, m: MirDisplay) -> Seq<char> {
    (if verbose(m) {
        l.ty_debug@
    } else {
        Seq::empty()
    }) + (if very_verbose(m) {
        explain() + ty_kind_text(l.ty_kind_debug@, m)
    } else {
        Seq::empty()
    })
}

/// The locals of `ls`, numbered from 0, one on each line.
pub open spec fn locals_text(ls: Seq<LocalDecl>, m: MirDisplay) -> Seq<char>
    decreases ls.len(),
{
    if ls.len() == 0 {
        Seq::empty()
    } else {
        locals_text(ls.drop_last(), m) + "_"@ + decimal((ls.len() - 1) as nat) + ": "@ + local_text(ls.last(), m)
            + " "@ + next_line()
    }
}

/// What the locals of a body show.
pub open spec fn local_decls_text(ls: Seq<LocalDecl>, m: MirDisplay) -> Seq<char> {
    if verbose(m) {
        locals_text(ls, m)
    } else {
        Seq::empty()
    }
}

/// What a body shows: its locals, then its blocks.
pub open spec fn body_text(b: Body, m: MirDisplay) -> Seq<char> {
    if verbose(m) {
        local_decls_text(b.local_decls@, m) + basic_blocks_text(b.basic_blocks@, m)
    } else {
        Seq::empty()
    }
}


// ---------------------------------------------------------------------------
// Showing it

fn append_string(s: &mut String, t: &String)
    ensures
        final(s)@ == old(s)@ + t@,
{
    s.append(t.as_str());
}

impl Display for TerminatorKind {
    fn display(&self, mode: MirDisplay) -> (r: String)
        ensures
            r@ == terminator_kind_text(*self, mode),
    {
        let mut s = String::new();
        if let MirDisplay::VeryVerobse = mode {
            push_explain(&mut s);
            match self {
                TerminatorKind::Goto => s.append("Goto"),
                TerminatorKind::SwitchInt => s.append("SwitchInt"),
                TerminatorKind::Resume => s.append("Resume"),
                TerminatorKind::Abort => s.append("Abort"),
                TerminatorKind::Return => s.append("Return"),
                TerminatorKind::Unreachable => s.append("Unreachable"),
                TerminatorKind::Drop => s.append("Drop"),
                TerminatorKind::DropAndReplace => s.append("DropAndReplace"),
                TerminatorKind::Assert => s.append("Assert"),
                TerminatorKind::Yield => s.append("Yield"),
                TerminatorKind::GeneratorDrop => s.append("GeneratorDrop"),
                TerminatorKind::FalseEdge => s.append("FalseEdge"),
                TerminatorKind::FalseUnwind => s.append("FalseUnwind"),
                TerminatorKind::InlineAsm => s.append("InlineAsm"),
                TerminatorKind::Call { fn_def } => match fn_def {
                    Some(id) => {
                        s.append("Call FnDef ID is ");
                        let d = decimal_string(*id);
                        append_string(&mut s, &d);
                    },
                    None => {},
                },
            }
        }
        assert(s@ =~= terminator_kind_text(*self, mode));
        s
    }
}

impl Display for Terminator {
    fn display(&self, mode: MirDisplay) -> (r: String)
        ensures
            r@ == terminator_text(*self, mode),
    {
        let mut s = String::new();
        match mode {
            MirDisplay::Disabled => {},
            _ => {
                push_padding(&mut s);
                append_string(&mut s, &self.kind_debug);
                let k = self.kind.display(mode);
                append_string(&mut s, &k);
            },
        }
        assert(s@ =~= terminator_text(*self, mode));
        s
    }
}

impl Display for Rvalue {
    fn display(&self, mode: MirDisplay) -> (r: String)
        ensures
            r@ == rvalue_text(*self, mode),
    {
        let mut s = String::new();
        if let MirDisplay::VeryVerobse = mode {
            match self {
                Rvalue::Use => s.append("Rvalue Use"),
                Rvalue::Repeat => s.append("Rvalue Repeat"),
                Rvalue::Ref => s.append("Rvalue Ref"),
                Rvalue::ThreadLocalRef => s.append("Rvalue ThreadLocalRef"),
                Rvalue::AddressOf => s.append("Rvalue AddressOf"),
                Rvalue::Len => s.append("Rvalue Len"),
                Rvalue::Cast => s.append("Rvalue Cast"),
                Rvalue::BinaryOp => s.append("Rvalue BinaryOp"),
                Rvalue::CheckedBinaryOp => s.append("Rvalue CheckedBinaryOp"),
                Rvalue::NullaryOp => s.append("Rvalue NullaryOp"),
                Rvalue::UnaryOp => s.append("Rvalue UnaryOp"),
                Rvalue::Discriminant => s.append("Rvalue Discriminant"),
                Rvalue::Aggregate => s.append("Rvalue Aggregate"),
                Rvalue::ShallowInitBox => s.append("Rvalue ShallowInitBox"),
            }
        }
        assert(s@ =~= rvalue_text(*self, mode));
        s
    }
}

impl Display for StatementKind {
    fn display(&self, mode: MirDisplay) -> (r: String)
        ensures
            r@ == statement_kind_text(*self, mode),
    {
        let mut s = String::new();
        if let MirDisplay::VeryVerobse = mode {
            push_explain(&mut s);
            match self {
                StatementKind::Assign { place_debug, rvalue } => {
                    s.append("Assign");
                    push_explain(&mut s);
                    append_string(&mut s, place_debug);
                    s.append(" ");
                    let r = rvalue.display(mode);
                    append_string(&mut s, &r);
                },
                StatementKind::FakeRead => s.append("FakeRead"),
                StatementKind::SetDiscriminant => s.append("SetDiscriminant"),
                StatementKind::StorageLive => s.append("StorageLive"),
                StatementKind::StorageDead => s.append("StorageDead"),
                StatementKind::Retag => s.append("Retag"),
                StatementKind::AscribeUserType => s.append("AscribeUserType"),
                StatementKind::Coverage => s.append("Coverage"),
                StatementKind::CopyNonOverlapping => s.append("CopyNonOverlapping"),
                StatementKind::Nop => s.append("Nop"),
            }
        }
        assert(s@ =~= statement_kind_text(*self, mode));
        s
    }
}

impl Display for Statement {
    fn display(&self, mode: MirDisplay) -> (r: String)
        ensures
            r@ == statement_text(*self, mode),
    {
        let mut s = String::new();
        match mode {
            MirDisplay::Disabled => {},
            _ => {
                push_padding(&mut s);
                append_string(&mut s, &self.kind_debug);
                let k = self.kind.display(mode);
                append_string(&mut s, &k);
            },
        }
        assert(s@ =~= statement_text(*self, mode));
        s
    }
}

impl Display for BasicBlockData {
    fn display(&self, mode: MirDisplay) -> (r: String)
        ensures
            r@ == block_text(*self, mode),
    {
        let mut s = String::new();
        match mode {
            MirDisplay::Disabled => {},
            _ => {
                s.append("clean_up:");
                push_explain(&mut s);
                if self.is_cleanup {
                    s.append("true");
                } else {
                    s.append("false");
                }
                push_next_line(&mut s);
                let ghost head = s@;
                let mut i: usize = 0;
                while i < self.statements.len()
                    invariant
                        i <= self.statements@.len(),
                        verbose(mode),
                        s@ == head + statements_text(self.statements@.take(i as int), mode),
                    decreases self.statements@.len() - i,
                {
                    let st = self.statements[i].display(mode);
                    append_string(&mut s, &st);
                    push_next_line(&mut s);
                    assert(self.statements@.take(i + 1).drop_last() =~= self.statements@.take(i as int));
                    i = i + 1;
                }
                assert(self.statements@.take(i as int) =~= self.statements@);
                let term = self.terminator.display(mode);
                append_string(&mut s, &term);
                push_next_line(&mut s);
            },
        }
        assert(s@ =~= block_text(*self, mode));
        s
    }
}

impl Display for Vec<BasicBlockData> {
    fn display(&self, mode: MirDisplay) -> (r: String)
        ensures
            r@ == basic_blocks_text(self@, mode),
    {
        let mut s = String::new();
        match mode {
            MirDisplay::Disabled => {},
            _ => {
                let mut i: usize = 0;
                while i < self.len()
                    invariant
                        i <= self@.len(),
                        verbose(mode),
                        s@ == blocks_text(self@.take(i as int), mode),
                    decreases self@.len() - i,
                {
                    s.append("bb ");
                    let d = decimal_string(i);
                    append_string(&mut s, &d);
                    s.append(" {");
                    push_next_line(&mut s);
                    let b = self[i].display(mode);
                    append_string(&mut s, &b);
                    s.append("}");
                    push_next_line(&mut s);
                    assert(self@.take(i + 1).drop_last() =~= self@.take(i as int));
                    i = i + 1;
                }
                assert(self@.take(i as int) =~= self@);
            },
        }
        assert(s@ =~= basic_blocks_text(self@, mode));
        s
    }
}

impl Display for LocalDecl {
    fn display(&self, mode: MirDisplay) -> (r: String)
        ensures
            r@ == local_text(*self, mode),
    {
        let mut s = String::new();
        match mode {
            MirDisplay::Disabled => {},
            _ => {
                append_string(&mut s, &self.ty_debug);
            },
        }
        if let MirDisplay::VeryVerobse = mode {
            push_explain(&mut s);
            append_string(&mut s, &self.ty_kind_debug);
        }
        assert(s@ =~= local_text(*self, mode));
        s
    }
}

impl Display for Vec<LocalDecl> {
    fn display(&self, mode: MirDisplay) -> (r: String)
        ensures
            r@ == local_decls_text(self@, mode),
    {
        let mut s = String::new();
        match mode {
            MirDisplay::Disabled => {},
            _ => {
                let mut i: usize = 0;
                while i < self.len()
                    invariant
                        i <= self@.len(),
                        verbose(mode),
                        s@ == locals_text(self@.take(i as int), mode),
                    decreases self@.len() - i,
                {
                    s.append("_");
                    let d = decimal_string(i);
                    append_string(&mut s, &d);
                    s.append(": ");
                    let l = self[i].display(mode);
                    append_string(&mut s, &l);
                    s.append(" ");
                    push_next_line(&mut s);
                    assert(self@.take(i + 1).drop_last() =~= self@.take(i as int));
                    i = i + 1;
                }
                assert(self@.take(i as int) =~= self@);
            },
        }
        assert(s@ =~= local_decls_text(self@, mode));
        s
    }
}

impl Display for Body {
    fn display(&self, mode: MirDisplay) -> (r: String)
        ensures
            r@ == body_text(*self, mode),
    {
        let mut s = String::new();
        match mode {
            MirDisplay::Disabled => {},
            _ => {
                let l = self.local_decls.display(mode);
                append_string(&mut s, &l);
                let b = self.basic_blocks.display(mode);
                append_string(&mut s, &b);
            },
        }
        assert(s@ =~= body_text(*self, mode));
        s
    }
}


// ---------------------------------------------------------------------------
// Laws

/// With the display disabled, nothing of a body is shown.
pub proof fn lemma_disabled_shows_nothing(b: Body)
    ensures
        body_text(b, MirDisplay::Disabled) == Seq::<char>::empty(),
        local_decls_text(b.local_decls@, MirDisplay::Disabled) == Seq::<char>::empty(),
        basic_blocks_text(b.basic_blocks@, MirDisplay::Disabled) == Seq::<char>::empty(),
{
}

/// With explanations, a terminator, a statement or a local shows what it
/// shows without them, followed by the explanation.
pub proof fn lemma_very_verbose_extends(t: Terminator, s: Statement, l: LocalDecl)
    ensures
        crate::text::is_prefix(terminator_text(t, MirDisplay::Verbose), terminator_text(t, MirDisplay::VeryVerobse)),
        crate::text::is_prefix(statement_text(s, MirDisplay::Verbose), statement_text(s, MirDisplay::VeryVerobse)),
        crate::text::is_prefix(local_text(l, MirDisplay::Verbose), local_text(l, MirDisplay::VeryVerobse)),
{
    let a = terminator_text(t, MirDisplay::Verbose);
    let b = terminator_text(t, MirDisplay::VeryVerobse);
    assert(a =~= padding() + t.kind_debug@);
    assert(b.subrange(0, a.len() as int) =~= a);
    let c = statement_text(s, MirDisplay::Verbose);
    let d = statement_text(s, MirDisplay::VeryVerobse);
    assert(c =~= padding() + s.kind_debug@);
    assert(d.subrange(0, c.len() as int) =~= c);
    let e = local_text(l, MirDisplay::Verbose);
    let f = local_text(l, MirDisplay::VeryVerobse);
    assert(e =~= l.ty_debug@);
    assert(f.subrange(0, e.len() as int) =~= e);
}

} // verus!
