use vstd::prelude::*;
use crate::analysis::{
    doc_type_of, infer_expr, infer_expr_spec, is_doc_type, keys_grow, lemma_grow_trans, lemma_stat_declares_grows, stat_declares,
    Analyzer, FileReturn, LocalTables, INFER_DEPTH,
};
use crate::db::DbState;
use crate::ids::FileId;
use crate::lexer::{lex_at, lex_fails, is_path_text, is_single_word, keyword_spec, path_tokens_of, token_text_ok, tokenize, Keyword, Token, TokenKind};
use crate::grammar::{block_val, chunk_reads};
use crate::parser::{parse_chunk, parse_expr, path_expr};
use crate::syntax::{LuaDocTypeRef, LuaExpr, LuaNameExpr, LuaStat};
use crate::types::{InferFailReason, LuaType};

verus! {

/// The depth to which nested functions and tables are analyzed.
const NESTING_LIMIT: usize = 1000;

/// A workspace of Lua files held in memory: files are added with their text,
/// analyzed, and expressions can then be inferred against them.
pub struct VirtualWorkspace {
    pub analyzer: Analyzer,
    pub next_file: u32,
    /// Each file added, in order, with the statements its text parsed to
    /// (none when it did not parse).
    pub files: Ghost<Seq<(FileId, Seq<LuaStat>)>>,
}

/// Every statement of every file in `files` has its declarations in `s`.
pub open spec fn files_declared(s: DbState, files: Seq<(FileId, Seq<LuaStat>)>) -> bool {
    forall|i: int, k: int|
        0 <= i < files.len() && 0 <= k < files[i].1.len() ==> stat_declares(s, files[i].0, #[trigger] files[i].1[k])
}

/// Nothing left pending in `a` can be inferred any more: every pending type
/// and every pending field key still fails to infer.
pub open spec fn pending_settled(a: Analyzer) -> bool {
    &&& forall|i: int|
        0 <= i < a.pending@.len() ==> infer_expr_spec(
            a.db@,
            a.modules@,
            (#[trigger] a.pending@[i]).file_id,
            a.pending@[i].expr,
            INFER_DEPTH as nat,
        ) is Err
    &&& forall|i: int|
        0 <= i < a.pending_fields@.len() ==> infer_expr_spec(
            a.db@,
            a.modules@,
            (#[trigger] a.pending_fields@[i]).file_id,
            a.pending_fields@[i].key,
            INFER_DEPTH as nat,
        ) is Err
}

proof fn lemma_files_declared_grows(s: DbState, t: DbState, files: Seq<(FileId, Seq<LuaStat>)>)
    requires
        files_declared(s, files),
        keys_grow(s, t),
    ensures
        files_declared(t, files),
{
    assert forall|i: int, k: int| 0 <= i < files.len() && 0 <= k < files[i].1.len() implies stat_declares(
        t,
        files[i].0,
        #[trigger] files[i].1[k],
    ) by {
        lemma_stat_declares_grows(s, t, files[i].0, files[i].1[k]);
    }
}

/// The text `text` reads as the statements `stats`: it splits into tokens
/// (`lex_at`) that make a whole chunk, whose statements are `stats`.
pub open spec fn text_reads_as(text: Seq<char>, stats: Seq<LuaStat>) -> bool {
    exists|ts: Seq<Token>|
        text.len() < u32::MAX && #[trigger] lex_at(text, 0, 0, ts, 0) && chunk_reads(ts) && block_val(
            ts,
            0,
            (ts.len() + 1) as nat,
            stats,
        )
}

/// The text `text` does not read as statements: it is too long, does not
/// split into tokens, or its tokens do not make a whole chunk.
pub open spec fn text_unreadable(text: Seq<char>) -> bool {
    ||| text.len() >= u32::MAX
    ||| lex_fails(text, 0)
    ||| exists|ts: Seq<Token>| #[trigger] lex_at(text, 0, 0, ts, 0) && !chunk_reads(ts)
}

/// The statements recorded for a file with the text `text` are `stats`:
/// what the text reads as, or none when it does not read.
pub open spec fn file_reads(text: Seq<char>, stats: Seq<LuaStat>) -> bool {
    text_reads_as(text, stats) || (stats.len() == 0 && text_unreadable(text))
}

/// The id the next file added gets, after one that got `n`.
pub open spec fn next_id(n: u32) -> u32 {
    if n < u32::MAX - 1 {
        (n + 1) as u32
    } else {
        n
    }
}

impl VirtualWorkspace {
    /// The analysis is well formed, and every statement of every file added
    /// has its declarations in the database.
    pub open spec fn wf(&self) -> bool {
        &&& self.analyzer.wf()
        &&& files_declared(self.analyzer.db@, self.files@)
    }

    /// An empty workspace.
    pub fn new() -> (r: Self)
        ensures
            r.wf(),
            r.next_file == 0,
            r.files@.len() == 0,
    {
        VirtualWorkspace { analyzer: Analyzer::new(), next_file: 0, files: Ghost(Seq::empty()) }
    }

    /// A workspace holding the part of the Lua standard library that the
    /// analysis models: the global table `table` of class `tablelib`, and
    /// `tostring`, which returns a string.
    pub fn new_with_init_std_lib() -> (r: Self)
        ensures
            r.wf(),
            r.next_file == 1,
            r.files@.len() == 1,
            r.files@[0].0 == (FileId { id: 0 }),
            pending_settled(r.analyzer),
    {
        let mut ws = VirtualWorkspace::new();
        ws.def_file(
            "std.lua",
            "---@class tablelib\n---@field unpack function\n---@field insert function\n\n---@type tablelib\ntable = {}\n\n---@return string\nfunction tostring(v) end\n",
        );
        ws
    }

    /// Adds a file named `name` with the text `content`, without resolving
    /// what it leaves pending.
    #[verifier::rlimit(60)]
    #[verifier::spinoff_prover]
    fn add_file(&mut self, name: &str, content: &str) -> (r: FileId)
        requires
            old(self).wf(),
        ensures
            final(self).wf(),
            r == (FileId { id: old(self).next_file }),
            final(self).next_file == next_id(old(self).next_file),
            keys_grow(old(self).analyzer.db@, final(self).analyzer.db@),
            final(self).files@.len() == old(self).files@.len() + 1,
            final(self).files@.subrange(0, old(self).files@.len() as int) == old(self).files@,
            final(self).files@.last().0 == r,
            file_reads(content@, final(self).files@.last().1),
    {
        let file_id = FileId { id: self.next_file };
        if self.next_file < u32::MAX - 1 {
            self.next_file = self.next_file + 1;
        }
        let ghost db0 = self.analyzer.db@;
        self.analyzer.modules.push(FileReturn { file_id, name: name.to_string(), expr: None });
        let ghost mut parsed: Seq<LuaStat> = Seq::empty();
        match tokenize(content) {
            Some(tokens) => {
                match parse_chunk(&tokens) {
                    Some(stats) => {
                        let mut tables = LocalTables { tables: Vec::new() };
                        proof {
                            parsed = stats@;
                            assert(text_reads_as(content@, parsed));
                        }
                        self.analyzer.declare_block(file_id, stats, u32::MAX, &None, &mut tables, true, NESTING_LIMIT);
                    },
                    None => {
                        assert(lex_at(content@, 0, 0, tokens@, 0) && !chunk_reads(tokens@));
                        assert(text_unreadable(content@));
                    },
                }
            },
            None => {
                assert(text_unreadable(content@));
            },
        }
        proof {
            lemma_files_declared_grows(db0, self.analyzer.db@, self.files@);
        }
        self.files = Ghost(self.files@.push((file_id, parsed)));
        assert(self.files@.subrange(0, self.files@.len() - 1) =~= old(self).files@);
        file_id
    }

    /// Adds and analyzes a file with the text `content`.
    pub fn def(&mut self, content: &str) -> (r: FileId)
        requires
            old(self).wf(),
        ensures
            final(self).wf(),
            r == (FileId { id: old(self).next_file }),
            final(self).next_file == next_id(old(self).next_file),
            keys_grow(old(self).analyzer.db@, final(self).analyzer.db@),
            final(self).files@.len() == old(self).files@.len() + 1,
            final(self).files@.subrange(0, old(self).files@.len() as int) == old(self).files@,
            final(self).files@.last().0 == r,
            file_reads(content@, final(self).files@.last().1),
            pending_settled(final(self).analyzer),
    {
        self.def_file("", content)
    }

    /// Adds and analyzes a file named `name` with the text `content`: the
    /// statements it parses to are declared, and what the analysis left
    /// pending is resolved until nothing more can be inferred.
    pub fn def_file(&mut self, name: &str, content: &str) -> (r: FileId)
        requires
            old(self).wf(),
        ensures
            final(self).wf(),
            r == (FileId { id: old(self).next_file }),
            final(self).next_file == next_id(old(self).next_file),
            keys_grow(old(self).analyzer.db@, final(self).analyzer.db@),
            final(self).files@.len() == old(self).files@.len() + 1,
            final(self).files@.subrange(0, old(self).files@.len() as int) == old(self).files@,
            final(self).files@.last().0 == r,
            file_reads(content@, final(self).files@.last().1),
            pending_settled(final(self).analyzer),
    {
        let id = self.add_file(name, content);
        let ghost db1 = self.analyzer.db@;
        self.analyzer.resolve_pending();
        proof {
            lemma_files_declared_grows(db1, self.analyzer.db@, self.files@);
        }
        id
    }

    /// Adds several files, in order, and then analyzes them together.
    #[verifier::rlimit(60)]
    #[verifier::spinoff_prover]
    pub fn def_files(&mut self, files: Vec<(&str, &str)>) -> (r: Vec<FileId>)
        requires
            old(self).wf(),
        ensures
            final(self).wf(),
            r@.len() == files@.len(),
            keys_grow(old(self).analyzer.db@, final(self).analyzer.db@),
            final(self).files@.len() == old(self).files@.len() + files@.len(),
            final(self).files@.subrange(0, old(self).files@.len() as int) == old(self).files@,
            forall|i: int| 0 <= i < r@.len() ==> final(self).files@[old(self).files@.len() + i].0 == #[trigger] r@[i],
            forall|i: int|
                0 <= i < files@.len() ==> file_reads(
                    (#[trigger] files@[i]).1@,
                    final(self).files@[old(self).files@.len() + i].1,
                ),
            pending_settled(final(self).analyzer),
    {
        let mut ids: Vec<FileId> = Vec::new();
        let mut i: usize = 0;
        assert(self.files@.subrange(0, old(self).files@.len() as int) =~= old(self).files@);
        while i < files.len()
            invariant
                self.wf(),
                i <= files@.len(),
                ids@.len() == i,
                keys_grow(old(self).analyzer.db@, self.analyzer.db@),
                self.files@.len() == old(self).files@.len() + i,
                self.files@.subrange(0, old(self).files@.len() as int) == old(self).files@,
                forall|j: int| 0 <= j < i ==> self.files@[old(self).files@.len() + j].0 == #[trigger] ids@[j],
                forall|j: int|
                    0 <= j < i ==> file_reads((#[trigger] files@[j]).1@, self.files@[old(self).files@.len() + j].1),
            decreases files@.len() - i,
        {
            let (name, content) = files[i];
            let ghost f0 = self.files@;
            let ghost d0 = self.analyzer.db@;
            let id = self.add_file(name, content);
            proof {
                lemma_grow_trans(old(self).analyzer.db@, d0, self.analyzer.db@);
                assert(self.files@.subrange(0, old(self).files@.len() as int) =~= f0.subrange(
                    0,
                    old(self).files@.len() as int,
                ));
                assert forall|j: int| 0 <= j < i implies self.files@[old(self).files@.len() + j].0 == #[trigger] ids@[j] by {
                    assert(self.files@[old(self).files@.len() + j] == f0[old(self).files@.len() + j]);
                }
                assert forall|j: int| 0 <= j < i + 1 implies file_reads(
                    (#[trigger] files@[j]).1@,
                    self.files@[old(self).files@.len() + j].1,
                ) by {
                    if j < i {
                        assert(self.files@[old(self).files@.len() + j] == f0[old(self).files@.len() + j]);
                    } else {
                        assert(files@[j].1 == content);
                    }
                }
            }
            ids.push(id);
            i = i + 1;
        }
        let ghost d1 = self.analyzer.db@;
        self.analyzer.resolve_pending();
        proof {
            lemma_files_declared_grows(d1, self.analyzer.db@, self.files@);
            lemma_grow_trans(old(self).analyzer.db@, d1, self.analyzer.db@);
        }
        ids
    }

    /// The type of the expression `expr`, read as if written in a new file:
    /// `Unknown` when it cannot be parsed or inferred.
    pub fn expr_ty(&mut self, expr: &str) -> (r: LuaType)
        requires
            old(self).wf(),
        ensures
            *final(self) == *old(self),
            r == LuaType::Unknown || exists|e: LuaExpr|
                infer_expr_spec(
                    old(self).analyzer.db@,
                    old(self).analyzer.modules@,
                    FileId { id: u32::MAX },
                    e,
                    INFER_DEPTH as nat,
                ) == Ok::<LuaType, InferFailReason>(r),
            is_single_word(expr@) && keyword_spec(expr@) is None ==> exists|n: LuaNameExpr|
                n.name@ == expr@ && n.position == 0 && r == match infer_expr_spec(
                    old(self).analyzer.db@,
                    old(self).analyzer.modules@,
                    FileId { id: u32::MAX },
                    LuaExpr::NameExpr(n),
                    INFER_DEPTH as nat,
                ) {
                    Ok(t) => t,
                    Err(_) => LuaType::Unknown,
                },
            is_path_text(expr@) && expr@.len() < 0x4000_0000 ==> exists|ts: Seq<Token>|
                #[trigger] path_tokens_of(expr@, ts) && r == match infer_expr_spec(
                    old(self).analyzer.db@,
                    old(self).analyzer.modules@,
                    FileId { id: u32::MAX },
                    path_expr(ts, ((ts.len() - 1) / 2) as nat),
                    INFER_DEPTH as nat,
                ) {
                    Ok(t) => t,
                    Err(_) => LuaType::Unknown,
                },
    {
        let tokens = match tokenize(expr) {
            Some(t) => t,
            None => return LuaType::Unknown,
        };
        if tokens.len() >= 0x4000_0000 {
            return LuaType::Unknown;
        }
        let fuel = tokens.len() + 1;
        proof {
            if is_single_word(expr@) {
                assert(token_text_ok(expr@, tokens@[0]));
                assert(expr@.subrange(0, expr@.len() as int) =~= expr@);
            }
        }
        match parse_expr(&tokens, 0, fuel) {
            Some((e, p)) => {
                if p != tokens.len() {
                    return LuaType::Unknown;
                }
                let res = infer_expr(&self.analyzer.db, &self.analyzer.modules, FileId { id: u32::MAX }, &e, INFER_DEPTH);
                proof {
                    if is_single_word(expr@) && keyword_spec(expr@) is None {
                        let n = e->NameExpr_0;
                        assert(n.name@ == expr@);
                    }
                    if is_path_text(expr@) && expr@.len() < 0x4000_0000 {
                        assert(path_tokens_of(expr@, tokens@));
                    }
                }
                match res {
                    Ok(t) => t,
                    Err(_) => LuaType::Unknown,
                }
            },
            None => LuaType::Unknown,
        }
    }

    /// The type that the doc type `type_text` names; `Unknown` when it is not
    /// a type name.
    pub fn ty(&mut self, type_text: &str) -> (r: LuaType)
        requires
            old(self).wf(),
        ensures
            *final(self) == *old(self),
            is_single_word(type_text@) && keyword_spec(type_text@) is None ==> is_doc_type(type_text@, r),
            is_single_word(type_text@) && keyword_spec(type_text@) == Some(Keyword::Nil) ==> r == LuaType::Nil,
    {
        let tokens = match tokenize(type_text) {
            Some(t) => t,
            None => return LuaType::Unknown,
        };
        if tokens.len() != 1 {
            return LuaType::Unknown;
        }
        proof {
            if is_single_word(type_text@) {
                assert(token_text_ok(type_text@, tokens@[0]));
                assert(type_text@.subrange(0, type_text@.len() as int) =~= type_text@);
            }
        }
        match &tokens[0].kind {
            TokenKind::Name(n) => doc_type_of(&LuaDocTypeRef { name: n.clone(), optional: false }),
            TokenKind::Keyword(Keyword::Nil) => LuaType::Nil,
            _ => LuaType::Unknown,
        }
    }
}

} // verus!
