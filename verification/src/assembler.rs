//! The assembler: source text to bytecode, in two passes over the parsed
//! instructions.
//!
//! The first pass walks the instruction list with a running byte offset
//! that every instruction advances by 4, one cell, whether or not the line
//! itself emits a cell; a line that declares a label records the offset the
//! counter stood at.  Declaring a name twice is an error, as is an offset
//! beyond the one byte a cell can carry.  The second pass emits each
//! opcode-carrying line as its 4-byte cell, substituting resolved offsets
//! for label usages; `.code` and `.data` switch the current section, and an
//! `.asciiz` payload met inside the data section is appended to the
//! read-only data buffer, NUL-terminated, its characters taken by their low
//! byte.  Compile-time diagnostics are collected and returned as a list;
//! the first resolution error blocks the compile by itself.

use vstd::prelude::*;

use crate::lexer::LexErrorModel;
use crate::lexer::Lexer;
use crate::lexer::LexerError;
use crate::lexer::chars_vec;
use crate::lexer::error_views;
use crate::lexer::scan_all;
use crate::lexer::start_pos;
use crate::parser::AssemblyInstruction;
use crate::parser::InstructionModel;
use crate::parser::Parser;
use crate::parser::SyntaxError;
use crate::parser::cell_bytes;
use crate::parser::instr_views;
use crate::parser::parse_all;
use crate::symbol::Symbol;
use crate::symbol::SymbolModel;
use crate::symbol::SymbolType;
use crate::symbol_table::SymbolTable;
use crate::symbol_table::lookup;
use crate::token::DirectiveType;
use crate::token::Token;
use crate::token::TokenModel;
use crate::token::token_views;

verus! {

/// An error met while resolving labels or emitting cells; the first one
/// blocks the compile.
#[derive(Debug, PartialEq, Eq, Structural, Clone, Copy)]
pub enum ResolutionError {
    /// A label name declared a second time.
    DuplicateLabel,
    /// A label declared past the largest offset a cell operand can carry.
    OffsetOutOfRange,
    /// An instruction uses a label that no line declares.
    UndefinedLabel,
}

/// One compile-time diagnostic, from whichever phase found it.
#[derive(Debug, PartialEq)]
pub enum CompileError {
    Lex(LexerError),
    Syntax(SyntaxError),
    Resolution(ResolutionError),
}

/// The model of a compile-time diagnostic.
pub enum CompileErrorModel {
    Lex(LexErrorModel),
    Syntax(SyntaxError),
    Resolution(ResolutionError),
}

impl View for CompileError {
    type V = CompileErrorModel;

    open spec fn view(&self) -> CompileErrorModel {
        match self {
            CompileError::Lex(e) => CompileErrorModel::Lex(e@),
            CompileError::Syntax(e) => CompileErrorModel::Syntax(*e),
            CompileError::Resolution(e) => CompileErrorModel::Resolution(*e),
        }
    }
}

/// The models of a sequence of diagnostics, in order.
pub open spec fn ce_views(es: Seq<CompileError>) -> Seq<CompileErrorModel> {
    es.map_values(|e: CompileError| e@)
}

/// The name an instruction declares as a label, if it is a label line.
pub open spec fn decl_name(i: InstructionModel) -> Option<Seq<char>> {
    match i.label {
        Some(TokenModel::LabelDeclaration { value }) => Some(value),
        _ => None,
    }
}

/// The resolver's pass from instruction `i` on, with the symbols gathered
/// so far.  Instruction `i` stands at byte offset `4 * i`.
pub open spec fn resolve_from(
    insts: Seq<InstructionModel>,
    i: int,
    acc: Seq<SymbolModel>,
) -> Result<Seq<SymbolModel>, ResolutionError>
    decreases insts.len() - i,
{
    if 0 <= i < insts.len() {
        match decl_name(insts[i]) {
            Some(name) => if lookup(acc, name) is Some {
                Err(ResolutionError::DuplicateLabel)
            } else if 4 * i > 255 {
                Err(ResolutionError::OffsetOutOfRange)
            } else {
                resolve_from(
                    insts,
                    i + 1,
                    acc.push(SymbolModel { name, offset: (4 * i) as u8 }),
                )
            },
            None => resolve_from(insts, i + 1, acc),
        }
    } else {
        Ok(acc)
    }
}

/// The symbol table of a whole instruction list, or the first error.
pub open spec fn resolve(insts: Seq<InstructionModel>) -> Result<
    Seq<SymbolModel>,
    ResolutionError,
> {
    resolve_from(insts, 0, Seq::empty())
}

/// A string payload as the data section carries it: each character's low
/// byte, then the terminating NUL.
pub open spec fn string_bytes(v: Seq<char>) -> Seq<u8> {
    v.map_values(|c: char| ((c as u32) % 256) as u8) + seq![0u8]
}

/// The emitter's pass from instruction `i` on: `code` and `data` hold what
/// was emitted so far, and `in_data` whether the data section is current.
pub open spec fn emit_from(
    insts: Seq<InstructionModel>,
    i: int,
    st: Seq<SymbolModel>,
    in_data: bool,
    code: Seq<u8>,
    data: Seq<u8>,
) -> Result<(Seq<u8>, Seq<u8>), ResolutionError>
    decreases insts.len() - i,
{
    if 0 <= i < insts.len() {
        let inst = insts[i];
        match inst.directive {
            Some(TokenModel::Directive { directive_type, .. }) => {
                if directive_type == DirectiveType::Code {
                    emit_from(insts, i + 1, st, false, code, data)
                } else if directive_type == DirectiveType::Data {
                    emit_from(insts, i + 1, st, true, code, data)
                } else {
                    match inst.operand1 {
                        Some(TokenModel::StringLiteral { value }) => if in_data {
                            emit_from(insts, i + 1, st, in_data, code, data + string_bytes(value))
                        } else {
                            emit_from(insts, i + 1, st, in_data, code, data)
                        },
                        _ => emit_from(insts, i + 1, st, in_data, code, data),
                    }
                }
            },
            _ => match inst.opcode {
                Some(TokenModel::Op { .. }) => match cell_bytes(inst, st) {
                    Some(cell) => emit_from(insts, i + 1, st, in_data, code + cell, data),
                    None => Err(ResolutionError::UndefinedLabel),
                },
                _ => emit_from(insts, i + 1, st, in_data, code, data),
            },
        }
    } else {
        Ok((code, data))
    }
}

/// The code and data buffers of a whole instruction list, or the first
/// error; the code section is current at the start.
pub open spec fn emit(insts: Seq<InstructionModel>, st: Seq<SymbolModel>) -> Result<
    (Seq<u8>, Seq<u8>),
    ResolutionError,
> {
    emit_from(insts, 0, st, false, Seq::empty(), Seq::empty())
}

/// The tokens and lexical errors of a source text, scanned from its start.
pub open spec fn spec_tokenize(src: Seq<char>) -> (Seq<TokenModel>, Seq<LexErrorModel>) {
    scan_all(src, start_pos(src))
}

/// What compiling a source text yields: the code and read-only data bytes,
/// or every diagnostic of the first phase that failed.
pub open spec fn spec_compile(src: Seq<char>) -> Result<(Seq<u8>, Seq<u8>), Seq<
    CompileErrorModel,
>> {
    let (toks, lex_errs) = spec_tokenize(src);
    if lex_errs.len() > 0 {
        Err(lex_errs.map_values(|e: LexErrorModel| CompileErrorModel::Lex(e)))
    } else {
        let (instrs, syn_errs) = parse_all(toks, 0);
        if syn_errs.len() > 0 {
            Err(syn_errs.map_values(|e: SyntaxError| CompileErrorModel::Syntax(e)))
        } else {
            match resolve(instrs) {
                Err(e) => Err(seq![CompileErrorModel::Resolution(e)]),
                Ok(st) => match emit(instrs, st) {
                    Err(e) => Err(seq![CompileErrorModel::Resolution(e)]),
                    Ok(buffers) => Ok(buffers),
                },
            }
        }
    }
}

/// The output of a compile is a function of the source text alone: equal
/// sources compile to byte-identical output, however often and in whatever
/// state the passes run.
pub proof fn lemma_compile_deterministic(a: Seq<char>, b: Seq<char>)
    requires
        a == b,
    ensures
        spec_compile(a) == spec_compile(b),
{
}

/// A program of one opcode-carrying line emits exactly that line's cell
/// and nothing into the data buffer.
pub proof fn lemma_emit_single(i: InstructionModel, st: Seq<SymbolModel>)
    requires
        i.directive is None,
        i.opcode matches Some(TokenModel::Op { .. }),
        cell_bytes(i, st) is Some,
    ensures
        emit(seq![i], st) == Ok::<(Seq<u8>, Seq<u8>), ResolutionError>(
            (cell_bytes(i, st).unwrap(), Seq::<u8>::empty()),
        ),
{
    let cell = cell_bytes(i, st).unwrap();
    assert(seq![i][0] == i);
    assert(Seq::<u8>::empty() + cell =~= cell);
    assert(emit_from(seq![i], 1, st, false, Seq::<u8>::empty() + cell, Seq::<u8>::empty())
        == Ok::<(Seq<u8>, Seq<u8>), ResolutionError>((
        Seq::<u8>::empty() + cell,
        Seq::<u8>::empty(),
    )));
}

/// A directive-tracked section marker.
#[derive(Debug, PartialEq, Eq, Structural, Clone, Copy)]
pub enum AssemblerSection {
    Data { starting_offset: Option<u32> },
    Code { starting_offset: Option<u32> },
    Unkown,
}

/// The model of the assembler's state.
#[verifier::ext_equal]
pub struct AssemblerModel {
    pub source: Seq<char>,
    pub symbols: Seq<SymbolModel>,
    pub read_only_secion: Seq<u8>,
    pub bytecode: Seq<u8>,
}

/// The assembler: holds one source text and, after `assemble`, the
/// bytecode and read-only data it compiled to.
pub struct Assembler {
    source: String,
    symbol_table: SymbolTable,
    pub read_only_secion: Vec<u8>,
    pub bytecode: Vec<u8>,
}

impl View for Assembler {
    type V = AssemblerModel;

    closed spec fn view(&self) -> AssemblerModel {
        AssemblerModel {
            source: self.source@,
            symbols: self.symbol_table@,
            read_only_secion: self.read_only_secion@,
            bytecode: self.bytecode@,
        }
    }
}

impl Assembler {
    /// The source is small enough for the scanner's position counters.
    pub closed spec fn wf(&self) -> bool {
        self.source@.len() + 2 <= usize::MAX
    }

    /// An assembler over `source`, with nothing compiled yet.
    pub fn new(source: String) -> (r: Assembler)
        requires
            source@.len() + 2 <= usize::MAX,
        ensures
            r.wf(),
            r@ == (AssemblerModel {
                source: source@,
                symbols: Seq::empty(),
                read_only_secion: Seq::empty(),
                bytecode: Seq::empty(),
            }),
    {
        let r = Assembler {
            source,
            symbol_table: SymbolTable::new(),
            read_only_secion: Vec::new(),
            bytecode: Vec::new(),
        };
        proof {
            assert(r@ =~= (AssemblerModel {
                source: r.source@,
                symbols: Seq::empty(),
                read_only_secion: Seq::empty(),
                bytecode: Seq::empty(),
            }));
        }
        r
    }

    /// Scan the source: its tokens, or every lexical error.
    fn get_tokens(&mut self) -> (r: Result<Vec<Token>, Vec<LexerError>>)
        requires
            old(self).wf(),
        ensures
            final(self).wf(),
            final(self)@ == old(self)@,
            ({
                let (toks, errs) = spec_tokenize(old(self)@.source);
                match r {
                    Ok(ts) => errs.len() == 0 && token_views(ts@) == toks,
                    Err(es) => errs.len() > 0 && error_views(es@) == errs,
                }
            }),
    {
        let mut lexer = Lexer::new(self.source.clone());
        let r = lexer.tokenize();
        proof {
            let (toks, errs) = spec_tokenize(self@.source);
            match r {
                Ok(ref ts) => {},
                Err(ref es) => {
                    assert(error_views(es@) =~= errs);
                },
            }
        }
        r
    }

    /// Parse a token stream: its instructions, or every syntax error.
    fn get_instructions(&mut self, tokens: Vec<Token>) -> (r: Result<
        Vec<AssemblyInstruction>,
        Vec<SyntaxError>,
    >)
        ensures
            final(self)@ == old(self)@,
            final(self).wf() == old(self).wf(),
            ({
                let (instrs, errs) = parse_all(token_views(tokens@), 0);
                match r {
                    Ok(is) => errs.len() == 0 && instr_views(is@) == instrs,
                    Err(es) => errs.len() > 0 && es@ == errs,
                }
            }),
    {
        let mut parser = Parser::new(tokens);
        parser.parse()
    }

    /// The resolver: record each declared label at the running offset,
    /// which every instruction advances by one 4-byte cell.
    pub fn first_phase(&mut self, insts: &Vec<AssemblyInstruction>) -> (r: Result<
        (),
        ResolutionError,
    >)
        requires
            old(self)@.symbols == Seq::<SymbolModel>::empty(),
        ensures
            final(self).wf() == old(self).wf(),
            final(self)@.source == old(self)@.source,
            final(self)@.read_only_secion == old(self)@.read_only_secion,
            final(self)@.bytecode == old(self)@.bytecode,
            match (r, resolve(instr_views(insts@))) {
                (Ok(()), Ok(st)) => final(self)@.symbols == st,
                (Err(e), Err(m)) => e == m,
                _ => false,
            },
    {
        let ghost models = instr_views(insts@);
        let mut i: usize = 0;
        while i < insts.len()
            invariant
                i <= insts@.len(),
                models == instr_views(insts@),
                models.len() == insts@.len(),
                self.wf() == old(self).wf(),
                self@.source == old(self)@.source,
                self@.read_only_secion == old(self)@.read_only_secion,
                self@.bytecode == old(self)@.bytecode,
                resolve_from(models, i as int, self@.symbols) == resolve(models),
                forall|k: int| 0 <= k < models.len() ==> #[trigger] models[k] == insts@[k]@,
            decreases insts@.len() - i,
        {
            let declared = insts[i].declared_label();
            match declared {
                Some(name) => {
                    if self.symbol_table.get_symbol_value(name.as_str()).is_some() {
                        return Err(ResolutionError::DuplicateLabel);
                    }
                    if i >= 64 {
                        return Err(ResolutionError::OffsetOutOfRange);
                    }
                    let offset = (i * 4) as u8;
                    self.symbol_table.add_symbol(Symbol::new(name, offset, SymbolType::Label));
                },
                None => {},
            }
            i = i + 1;
        }
        Ok(())
    }

    /// The emitter: each opcode line becomes its cell in the bytecode
    /// buffer; directives switch sections and feed the data buffer.
    fn second_phase(&mut self, insts: &Vec<AssemblyInstruction>) -> (r: Result<
        (),
        ResolutionError,
    >)
        requires
            old(self)@.bytecode == Seq::<u8>::empty(),
            old(self)@.read_only_secion == Seq::<u8>::empty(),
        ensures
            final(self).wf() == old(self).wf(),
            final(self)@.source == old(self)@.source,
            final(self)@.symbols == old(self)@.symbols,
            match (r, emit(instr_views(insts@), old(self)@.symbols)) {
                (Ok(()), Ok(buffers)) => {
                    &&& final(self)@.bytecode == buffers.0
                    &&& final(self)@.read_only_secion == buffers.1
                },
                (Err(e), Err(m)) => e == m,
                _ => false,
            },
    {
        let ghost models = instr_views(insts@);
        let ghost st = self@.symbols;
        let mut section = AssemblerSection::Code { starting_offset: None };
        let mut i: usize = 0;
        while i < insts.len()
            invariant
                i <= insts@.len(),
                models == instr_views(insts@),
                models.len() == insts@.len(),
                st == old(self)@.symbols,
                self.wf() == old(self).wf(),
                self@.source == old(self)@.source,
                self@.symbols == st,
                emit_from(
                    models,
                    i as int,
                    st,
                    section matches AssemblerSection::Data { .. },
                    self@.bytecode,
                    self@.read_only_secion,
                ) == emit(models, st),
                forall|k: int| 0 <= k < models.len() ==> #[trigger] models[k] == insts@[k]@,
            decreases insts@.len() - i,
        {
            let inst = &insts[i];
            let directive = inst.directive_type();
            match directive {
                Some(DirectiveType::Code) => {
                    section = AssemblerSection::Code { starting_offset: None };
                },
                Some(DirectiveType::Data) => {
                    section = AssemblerSection::Data { starting_offset: None };
                },
                Some(DirectiveType::Asciiz) => {
                    let payload = inst.string_payload();
                    match payload {
                        Some(text) => {
                            if matches!(section, AssemblerSection::Data { .. }) {
                                self.append_string_bytes(text);
                            }
                        },
                        None => {},
                    }
                },
                None => {
                    if inst.has_opcode() {
                        let cell = inst.to_bytes(&self.symbol_table);
                        match cell {
                            Some(mut bytes) => {
                                self.bytecode.append(&mut bytes);
                            },
                            None => {
                                return Err(ResolutionError::UndefinedLabel);
                            },
                        }
                    }
                },
            }
            i = i + 1;
        }
        Ok(())
    }

    /// Append one string payload to the read-only data buffer: each
    /// character's low byte, then the terminating NUL.
    fn append_string_bytes(&mut self, text: String)
        ensures
            final(self).wf() == old(self).wf(),
            final(self)@ == (AssemblerModel {
                read_only_secion: old(self)@.read_only_secion + string_bytes(text@),
                ..old(self)@
            }),
    {
        let chars = chars_vec(text.as_str());
        let ghost base = self.read_only_secion@;
        let mut i: usize = 0;
        while i < chars.len()
            invariant
                i <= chars@.len(),
                chars@ == text@,
                base == old(self)@.read_only_secion,
                self.wf() == old(self).wf(),
                self@.source == old(self)@.source,
                self@.symbols == old(self)@.symbols,
                self@.bytecode == old(self)@.bytecode,
                self@.read_only_secion =~= base + chars@.subrange(0, i as int).map_values(
                    |c: char| ((c as u32) % 256) as u8,
                ),
            decreases chars@.len() - i,
        {
            let c = chars[i];
            let byte = ((c as u32) % 256) as u8;
            self.read_only_secion.push(byte);
            i = i + 1;
            proof {
                assert(self@.read_only_secion =~= base + chars@.subrange(0, i as int).map_values(
                    |c: char| ((c as u32) % 256) as u8,
                ));
            }
        }
        self.read_only_secion.push(0);
        proof {
            assert(chars@.subrange(0, chars@.len() as int) =~= chars@);
            assert(self@.read_only_secion =~= base + string_bytes(text@));
            assert(self@ =~= (AssemblerModel {
                read_only_secion: base + string_bytes(text@),
                ..old(self)@
            }));
        }
    }

    /// Compile the held source: scan, parse, resolve, emit.  On success the
    /// bytecode comes back and stays in `bytecode`, with the read-only data
    /// in `read_only_secion`; on failure the diagnostics come back and both
    /// buffers are left empty.  The output depends on the source alone:
    /// earlier compiles leave nothing behind.
    pub fn assemble(&mut self) -> (r: Result<Vec<u8>, Vec<CompileError>>)
        requires
            old(self).wf(),
        ensures
            final(self).wf(),
            final(self)@.source == old(self)@.source,
            match (r, spec_compile(old(self)@.source)) {
                (Ok(v), Ok(buffers)) => {
                    &&& v@ == buffers.0
                    &&& final(self)@.bytecode == buffers.0
                    &&& final(self)@.read_only_secion == buffers.1
                },
                (Err(es), Err(ms)) => {
                    &&& ce_views(es@) == ms
                    &&& final(self)@.bytecode == Seq::<u8>::empty()
                    &&& final(self)@.read_only_secion == Seq::<u8>::empty()
                },
                _ => false,
            },
    {
        self.symbol_table = SymbolTable::new();
        self.bytecode = Vec::new();
        self.read_only_secion = Vec::new();
        let tokens = match self.get_tokens() {
            Ok(ts) => ts,
            Err(es) => {
                return Err(lex_to_compile(es));
            },
        };
        let instructions = match self.get_instructions(tokens) {
            Ok(is) => is,
            Err(es) => {
                return Err(syntax_to_compile(es));
            },
        };
        match self.first_phase(&instructions) {
            Ok(()) => {},
            Err(e) => {
                let mut out: Vec<CompileError> = Vec::new();
                out.push(CompileError::Resolution(e));
                proof {
                    assert(ce_views(out@) =~= seq![CompileErrorModel::Resolution(e)]);
                }
                return Err(out);
            },
        }
        match self.second_phase(&instructions) {
            Ok(()) => {},
            Err(e) => {
                self.symbol_table = SymbolTable::new();
                self.bytecode = Vec::new();
                self.read_only_secion = Vec::new();
                let mut out: Vec<CompileError> = Vec::new();
                out.push(CompileError::Resolution(e));
                proof {
                    assert(ce_views(out@) =~= seq![CompileErrorModel::Resolution(e)]);
                }
                return Err(out);
            },
        }
        Ok(clone_bytes(&self.bytecode))
    }
}

/// Compile a source text in one call: the emitted bytecode, or every
/// diagnostic.  The length bound keeps the scanner's counters in machine
/// range.
pub fn compile(source: String) -> (r: Result<Vec<u8>, Vec<CompileError>>)
    requires
        source@.len() + 2 <= usize::MAX,
    ensures
        match (r, spec_compile(source@)) {
            (Ok(v), Ok(buffers)) => v@ == buffers.0,
            (Err(es), Err(ms)) => ce_views(es@) == ms,
            _ => false,
        },
{
    let mut assembler = Assembler::new(source);
    assembler.assemble()
}

/// Lexical errors wrapped as compile diagnostics, in order.
fn lex_to_compile(es: Vec<LexerError>) -> (r: Vec<CompileError>)
    ensures
        ce_views(r@) == error_views(es@).map_values(|e: LexErrorModel| CompileErrorModel::Lex(e)),
{
    let mut r: Vec<CompileError> = Vec::new();
    let mut i: usize = 0;
    while i < es.len()
        invariant
            i <= es@.len(),
            r@.len() == i as int,
            forall|k: int|
                0 <= k < i ==> #[trigger] r@[k]@ == CompileErrorModel::Lex(es@[k]@),
        decreases es@.len() - i,
    {
        r.push(CompileError::Lex(es[i].clone()));
        i = i + 1;
    }
    proof {
        assert(ce_views(r@) =~= error_views(es@).map_values(
            |e: LexErrorModel| CompileErrorModel::Lex(e),
        ));
    }
    r
}

/// Syntax errors wrapped as compile diagnostics, in order.
fn syntax_to_compile(es: Vec<SyntaxError>) -> (r: Vec<CompileError>)
    ensures
        ce_views(r@) == es@.map_values(|e: SyntaxError| CompileErrorModel::Syntax(e)),
{
    let mut r: Vec<CompileError> = Vec::new();
    let mut i: usize = 0;
    while i < es.len()
        invariant
            i <= es@.len(),
            r@.len() == i as int,
            forall|k: int|
                0 <= k < i ==> #[trigger] r@[k]@ == CompileErrorModel::Syntax(es@[k]),
        decreases es@.len() - i,
    {
        r.push(CompileError::Syntax(es[i]));
        i = i + 1;
    }
    proof {
        assert(ce_views(r@) =~= es@.map_values(|e: SyntaxError| CompileErrorModel::Syntax(e)));
    }
    r
}

/// A copy of a byte buffer.
fn clone_bytes(v: &Vec<u8>) -> (r: Vec<u8>)
    ensures
        r@ == v@,
{
    let mut r: Vec<u8> = Vec::new();
    let mut i: usize = 0;
    while i < v.len()
        invariant
            i <= v@.len(),
            r@ =~= v@.subrange(0, i as int),
        decreases v@.len() - i,
    {
        r.push(v[i]);
        i = i + 1;
        proof {
            assert(r@ =~= v@.subrange(0, i as int));
        }
    }
    proof {
        assert(v@.subrange(0, v@.len() as int) =~= v@);
    }
    r
}

} // verus!
