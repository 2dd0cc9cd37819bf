//! The standard-library documentation model: assembly module sources parsed
//! into modules, functions and their comments. Rendering the parsed model to
//! markdown files is I/O and lives outside the library.

use vstd::prelude::*;
use vstd::string::StrSliceExecFns;
use vstd::string::StringExecFns;

use crate::text::remove_prefix;
use crate::text::split_at_char;
use crate::text::split_spec;
use crate::text::starts_with;
use crate::text::starts_with_spec;

verus! {

/// A line that opens a comment.
pub const COMMENT_PREFIX: &'static str = "#";

/// A line that declares an exported function.
pub const FUNC_PREFIX: &'static str = "export.";

/// A line that opens a module-level comment.
pub const MODULE_COMMENT_PREFIX: &'static str = "#!";

/// Namespace and source text of each assembly module.
pub type ModuleMap = Vec<(String, String)>;

/// What kind of line the parser saw.
#[derive(PartialEq, Eq, Structural, Clone, Copy, Debug)]
pub enum AsmSourceState {
    Empty,
    Comment,
    Func,
    ModuleComment,
}

/// A line with a trailing carriage return removed, so that sources with
/// CRLF line endings parse as those with bare newlines do.
pub open spec fn strip_cr(s: Seq<char>) -> Seq<char> {
    if s.len() > 0 && s.last() == '\r' {
        s.drop_last()
    } else {
        s
    }
}

/// Removes a trailing carriage return, if one is there.
fn strip_cr_exec(line: &str) -> (r: String)
    ensures
        r@ == strip_cr(line@),
{
    let n = line.unicode_len();
    if n > 0 && line.get_char(n - 1) == '\r' {
        let head = line.substring_char(0, n - 1);
        proof {
            assert(head@ =~= line@.drop_last());
        }
        String::from_str(head)
    } else {
        String::from_str(line)
    }
}

/// The kind of a line: a module comment, a comment, an exported function, or
/// none of these.
pub open spec fn parse_state_spec(line: Seq<char>) -> AsmSourceState {
    if starts_with_spec(line, "#!"@) {
        AsmSourceState::ModuleComment
    } else if starts_with_spec(line, "#"@) {
        AsmSourceState::Comment
    } else if starts_with_spec(line, "export."@) {
        AsmSourceState::Func
    } else {
        AsmSourceState::Empty
    }
}

/// The kind of a line.
pub fn parse_new_state(line: &str) -> (r: AsmSourceState)
    ensures
        r == parse_state_spec(line@),
{
    if starts_with(line, MODULE_COMMENT_PREFIX) {
        AsmSourceState::ModuleComment
    } else if starts_with(line, COMMENT_PREFIX) {
        AsmSourceState::Comment
    } else if starts_with(line, FUNC_PREFIX) {
        AsmSourceState::Func
    } else {
        AsmSourceState::Empty
    }
}

/// The model of an exported function: its name and its comment lines.
#[verifier::ext_equal]
pub ghost struct FunctionModel {
    pub name: Seq<char>,
    pub comments: Seq<Seq<char>>,
}

/// The model of a parsed module.
#[verifier::ext_equal]
pub ghost struct ModuleModel {
    pub name: Seq<char>,
    pub section: Seq<char>,
    pub functions: Seq<FunctionModel>,
    pub comments: Seq<Seq<char>>,
}

/// What folding source lines leaves behind: comments waiting for the next
/// function, the functions collected, and the module comments collected.
#[verifier::ext_equal]
pub ghost struct DocFold {
    pub pending: Seq<Seq<char>>,
    pub functions: Seq<FunctionModel>,
    pub module_comments: Seq<Seq<char>>,
}

/// Folds source lines in order: comments accumulate until an exported
/// function takes them as its documentation; module comments accumulate on
/// their own; any other line discards the pending comments. A trailing
/// carriage return is stripped from each line first.
pub open spec fn doc_fold(lines: Seq<Seq<char>>) -> DocFold
    decreases lines.len(),
{
    if lines.len() == 0 {
        DocFold {
            pending: Seq::empty(),
            functions: Seq::empty(),
            module_comments: Seq::empty(),
        }
    } else {
        let prev = doc_fold(lines.drop_last());
        let line = strip_cr(lines.last());
        match parse_state_spec(line) {
            AsmSourceState::ModuleComment => DocFold {
                module_comments: prev.module_comments.push(line.skip(2)),
                ..prev
            },
            AsmSourceState::Comment => DocFold { pending: prev.pending.push(line.skip(1)), ..prev },
            AsmSourceState::Func => DocFold {
                pending: Seq::empty(),
                functions: prev.functions.push(
                    FunctionModel { name: line.skip(7), comments: prev.pending },
                ),
                ..prev
            },
            AsmSourceState::Empty => DocFold { pending: Seq::empty(), ..prev },
        }
    }
}

/// The position of the last `::` separator in a namespace.
pub open spec fn rfind_sep(s: Seq<char>) -> Option<int>
    decreases s.len(),
{
    if s.len() < 2 {
        None
    } else if s[s.len() - 2] == ':' && s[s.len() - 1] == ':' {
        Some(s.len() - 2)
    } else {
        rfind_sep(s.drop_last())
    }
}

/// The module name a namespace carries: the part after its last `::`.
/// On a namespace with an odd run of colons, such as one holding `:::`,
/// the last two colons win, where splitting at every `::` from the left
/// would keep the stray colon with the name.
pub open spec fn module_name_spec(ns: Seq<char>) -> Seq<char> {
    let i = rfind_sep(ns)->Some_0;
    ns.skip(i + 2)
}

/// The section a namespace carries: the part between its last two `::`
/// separators, or everything before the last one.
pub open spec fn module_section_spec(ns: Seq<char>) -> Seq<char> {
    let i = rfind_sep(ns)->Some_0;
    let head = ns.take(i);
    match rfind_sep(head) {
        Some(q) => head.skip(q + 2),
        None => head,
    }
}

/// Finds the last `::` in a string.
fn rfind_sep_exec(s: &str) -> (r: Option<usize>)
    ensures
        match r {
            Some(i) => rfind_sep(s@) == Some(i as int),
            None => rfind_sep(s@) is None,
        },
{
    let n = s.unicode_len();
    let mut i: usize = n;
    proof {
        assert(s@.subrange(0, n as int) =~= s@);
    }
    while i >= 2
        invariant
            i <= n,
            n == s@.len(),
            rfind_sep(s@) == rfind_sep(s@.subrange(0, i as int)),
        decreases i,
    {
        proof {
            assert(s@.subrange(0, i as int).drop_last() =~= s@.subrange(0, i - 1));
        }
        if s.get_char(i - 2) == ':' && s.get_char(i - 1) == ':' {
            return Some(i - 2);
        }
        i = i - 1;
    }
    None
}

/// An exported function: its name and the comment lines documenting it.
pub struct Function {
    name: String,
    comments: Vec<String>,
}

impl Function {
    /// The function's model.
    pub closed spec fn model(self) -> FunctionModel {
        FunctionModel {
            name: self.name@,
            comments: self.comments@.map(|i: int, c: String| c@),
        }
    }

    /// The function's name.
    pub fn name(&self) -> (r: &String)
        ensures
            r@ == self.model().name,
    {
        &self.name
    }

    /// The comment lines documenting the function.
    pub fn comments(&self) -> (r: &Vec<String>)
        ensures
            r@.map(|i: int, c: String| c@) == self.model().comments,
    {
        &self.comments
    }
}

/// A parsed module: its name, its section, its exported functions and its
/// module comments.
pub struct Module {
    name: String,
    section: String,
    functions: Vec<Function>,
    comments: Vec<String>,
}

impl Module {
    /// The module's model.
    pub closed spec fn model(self) -> ModuleModel {
        ModuleModel {
            name: self.name@,
            section: self.section@,
            functions: self.functions@.map(|i: int, f: Function| f.model()),
            comments: self.comments@.map(|i: int, c: String| c@),
        }
    }

    /// A fresh module for a namespace: named by the part after the last
    /// `::`, sectioned by the part before it, with nothing parsed yet.
    pub fn new(ns: String) -> (r: Module)
        requires
            rfind_sep(ns@) is Some,
        ensures
            r.model().name == module_name_spec(ns@),
            r.model().section == module_section_spec(ns@),
            r.model().functions == Seq::<FunctionModel>::empty(),
            r.model().comments == Seq::<Seq<char>>::empty(),
    {
        let n = ns.as_str().unicode_len();
        let i = match rfind_sep_exec(ns.as_str()) {
            Some(i) => i,
            None => 0,
        };
        proof {
            lemma_rfind_sep_bounds(ns@);
        }
        let name = String::from_str(ns.as_str().substring_char(i + 2, n));
        let head = ns.as_str().substring_char(0, i);
        let section = match rfind_sep_exec(head) {
            Some(q) => {
                proof {
                    lemma_rfind_sep_bounds(head@);
                }
                let hn = head.unicode_len();
                String::from_str(head.substring_char(q + 2, hn))
            },
            None => String::from_str(head),
        };
        let r = Module { name, section, functions: Vec::new(), comments: Vec::new() };
        proof {
            assert(r.model().name =~= module_name_spec(ns@));
            assert(r.model().section =~= module_section_spec(ns@));
            assert(r.model().functions =~= Seq::<FunctionModel>::empty());
            assert(r.model().comments =~= Seq::<Seq<char>>::empty());
        }
        r
    }

    /// The file name of the module's rendered documentation.
    pub fn markdown_file_name(&self) -> (r: String)
        ensures
            r@ == self.model().name + "_"@ + self.model().section + ".md"@,
    {
        let r = self.name.clone().concat("_").concat(self.section.as_str()).concat(".md");
        r
    }

    /// The module's name.
    pub fn name(&self) -> (r: &String)
        ensures
            r@ == self.model().name,
    {
        &self.name
    }

    /// The module's section.
    pub fn section(&self) -> (r: &String)
        ensures
            r@ == self.model().section,
    {
        &self.section
    }

    /// The exported functions parsed so far.
    pub fn functions(&self) -> (r: &Vec<Function>)
        ensures
            r@.map(|i: int, f: Function| f.model()) == self.model().functions,
    {
        &self.functions
    }

    /// The module comments parsed so far.
    pub fn comments(&self) -> (r: &Vec<String>)
        ensures
            r@.map(|i: int, c: String| c@) == self.model().comments,
    {
        &self.comments
    }
}

/// The position of a namespace among parsed modules.
pub open spec fn find_model(models: Seq<(Seq<char>, ModuleModel)>, ns: Seq<char>) -> Option<int>
    decreases models.len(),
{
    if models.len() == 0 {
        None
    } else if models[0].0 == ns {
        Some(0int)
    } else {
        match find_model(models.skip(1), ns) {
            Some(i) => Some(i + 1),
            None => None,
        }
    }
}

/// A module model extended by what one source fold collected.
pub open spec fn extend_model(m: ModuleModel, f: DocFold) -> ModuleModel {
    ModuleModel {
        functions: m.functions + f.functions,
        comments: m.comments + f.module_comments,
        ..m
    }
}

/// The fresh model of a namespace's module.
pub open spec fn module_new_model(ns: Seq<char>) -> ModuleModel {
    ModuleModel {
        name: module_name_spec(ns),
        section: module_section_spec(ns),
        functions: Seq::empty(),
        comments: Seq::empty(),
    }
}

/// What parsing one source under a namespace does to the parsed modules:
/// the namespace's module — a fresh one when absent, appended at the end —
/// gains the functions and module comments the source holds.
pub open spec fn apply_module(
    models: Seq<(Seq<char>, ModuleModel)>,
    ns: Seq<char>,
    source: Seq<char>,
) -> Seq<(Seq<char>, ModuleModel)> {
    let f = doc_fold(split_spec(source, '\n'));
    match find_model(models, ns) {
        Some(i) => models.update(i, (ns, extend_model(models[i].1, f))),
        None => models.push((ns, extend_model(module_new_model(ns), f))),
    }
}

/// The parsed standard library: one module per namespace.
pub struct Stdlib {
    modules: Vec<(String, Module)>,
}

impl Stdlib {
    /// The parsed modules, in the order they were first seen.
    pub closed spec fn models(self) -> Seq<(Seq<char>, ModuleModel)> {
        self.modules@.map(|i: int, p: (String, Module)| (p.0@, p.1.model()))
    }

    /// The library's invariant: one module per namespace.
    pub open spec fn wf(self) -> bool {
        forall|i: int, j: int|
            0 <= i < j < self.models().len() ==> (#[trigger] self.models()[i]).0 != (
            #[trigger] self.models()[j]).0
    }

    /// An empty library.
    pub fn new() -> (r: Stdlib)
        ensures
            r.wf(),
            r.models() == Seq::<(Seq<char>, ModuleModel)>::empty(),
    {
        let r = Stdlib { modules: Vec::new() };
        proof {
            assert(r.models() =~= Seq::<(Seq<char>, ModuleModel)>::empty());
        }
        r
    }

    /// The parsed modules with their namespaces.
    pub fn modules(&self) -> (r: &Vec<(String, Module)>)
        ensures
            r@.map(|i: int, p: (String, Module)| (p.0@, p.1.model())) == self.models(),
    {
        &self.modules
    }

    /// The position of a namespace, scanning from the front.
    fn find(&self, ns: &String) -> (r: Option<usize>)
        ensures
            match r {
                Some(i) => 0 <= i < self.models().len() && find_model(self.models(), ns@)
                    == Some(i as int) && self.models()[i as int].0 == ns@,
                None => find_model(self.models(), ns@) is None && forall|j: int|
                    0 <= j < self.models().len() ==> (#[trigger] self.models()[j]).0 != ns@,
            },
    {
        let mut i: usize = 0;
        while i < self.modules.len()
            invariant
                i <= self.modules@.len(),
                forall|j: int| 0 <= j < i ==> (#[trigger] self.models()[j]).0 != ns@,
            decreases self.modules@.len() - i,
        {
            if self.modules[i].0 == *ns {
                proof {
                    lemma_find_model_at(self.models(), ns@, i as int);
                }
                return Some(i);
            }
            i = i + 1;
        }
        proof {
            lemma_find_model_absent(self.models(), ns@);
        }
        None
    }
}

/// Accumulates the comments, functions and module comments of one module
/// source into `m`, line by line.
fn fold_lines(m: &mut Module, source: &str)
    ensures
        final(m).model() == extend_model(
            old(m).model(),
            doc_fold(split_spec(source@, '\n')),
        ),
{
    proof {
        reveal_strlit("\n");
        reveal_strlit("#!");
        reveal_strlit("#");
        reveal_strlit("export.");
    }
    let lines = split_at_char(source, "\n");
    let ghost lines_model = split_spec(source@, '\n');
    let mut pending: Vec<String> = Vec::new();
    let mut i: usize = 0;
    proof {
        assert(lines_model.subrange(0, 0) =~= Seq::<Seq<char>>::empty());
        assert(m.model() =~= extend_model(
            old(m).model(),
            doc_fold(lines_model.subrange(0, 0)),
        ));
    }
    while i < lines.len()
        invariant
            i <= lines@.len(),
            lines@.map(|i: int, p: String| p@) == lines_model,
            pending@.map(|i: int, c: String| c@) == doc_fold(
                lines_model.subrange(0, i as int),
            ).pending,
            m.model().name == old(m).model().name,
            m.model().section == old(m).model().section,
            m.model().functions == old(m).model().functions + doc_fold(
                lines_model.subrange(0, i as int),
            ).functions,
            m.model().comments == old(m).model().comments + doc_fold(
                lines_model.subrange(0, i as int),
            ).module_comments,
        decreases lines@.len() - i,
    {
        proof {
            assert(lines_model.subrange(0, i + 1).drop_last() =~= lines_model.subrange(
                0,
                i as int,
            ));
            assert(lines_model.subrange(0, i + 1).last() == lines_model[i as int]);
            reveal_strlit("#!");
            reveal_strlit("#");
            reveal_strlit("export.");
        }
        let line = strip_cr_exec(lines[i].as_str());
        let state = parse_new_state(line.as_str());
        match state {
            AsmSourceState::Func => {
                let name = remove_prefix(FUNC_PREFIX, line.as_str());
                let f = Function { name, comments: pending };
                let ghost mf_pre = m.functions@;
                m.functions.push(f);
                pending = Vec::new();
                proof {
                    let ghost fm = FunctionModel {
                        name: strip_cr(lines_model[i as int]).skip(7),
                        comments: doc_fold(lines_model.subrange(0, i as int)).pending,
                    };
                    assert(m.functions@.last().model() =~~= fm);
                    assert(doc_fold(lines_model.subrange(0, i + 1)).functions == doc_fold(
                        lines_model.subrange(0, i as int),
                    ).functions.push(fm));
                    assert(m.functions@ =~= mf_pre.push(m.functions@.last()));
                    assert(mf_pre.map(|j: int, g: Function| g.model()) == old(
                        m,
                    ).model().functions + doc_fold(lines_model.subrange(0, i as int)).functions);
                    assert(m.model().functions =~~= mf_pre.map(
                        |j: int, g: Function| g.model(),
                    ).push(fm));
                    assert(m.model().functions =~~= old(m).model().functions + doc_fold(
                        lines_model.subrange(0, i + 1),
                    ).functions);
                    assert(pending@.map(|i: int, c: String| c@) =~= doc_fold(
                        lines_model.subrange(0, i + 1),
                    ).pending);
                }
            },
            AsmSourceState::Comment => {
                let c = remove_prefix(COMMENT_PREFIX, line.as_str());
                pending.push(c);
                proof {
                    assert(pending@.map(|i: int, c: String| c@) =~= doc_fold(
                        lines_model.subrange(0, i + 1),
                    ).pending);
                }
            },
            AsmSourceState::Empty => {
                pending.clear();
                proof {
                    assert(pending@.map(|i: int, c: String| c@) =~= doc_fold(
                        lines_model.subrange(0, i + 1),
                    ).pending);
                }
            },
            AsmSourceState::ModuleComment => {
                let c = remove_prefix(MODULE_COMMENT_PREFIX, line.as_str());
                let ghost mc_pre = m.comments@;
                m.comments.push(c);
                proof {
                    assert(m.comments@ =~= mc_pre.push(m.comments@.last()));
                    assert(mc_pre.map(|j: int, x: String| x@) == old(m).model().comments
                        + doc_fold(lines_model.subrange(0, i as int)).module_comments);
                    assert(m.model().comments =~~= mc_pre.map(|j: int, x: String| x@).push(
                        strip_cr(lines_model[i as int]).skip(2),
                    ));
                    assert(m.model().comments =~~= old(m).model().comments + doc_fold(
                        lines_model.subrange(0, i + 1),
                    ).module_comments);
                }
            },
        }
        i = i + 1;
    }
    proof {
        assert(lines_model.subrange(0, lines_model.len() as int) =~= lines_model);
    }
}

/// Parses one module source under its namespace into the library: the
/// namespace's module — created when absent — gains the source's exported
/// functions, each with the comments above it, and the module comments.
pub fn parse_module(ns: String, source: String, stdlib: &mut Stdlib)
    requires
        old(stdlib).wf(),
        rfind_sep(ns@) is Some,
    ensures
        final(stdlib).wf(),
        final(stdlib).models() == apply_module(old(stdlib).models(), ns@, source@),
{
    match stdlib.find(&ns) {
        Some(i) => {
            let pair = stdlib.modules.remove(i);
            let key = pair.0;
            let mut m = pair.1;
            fold_lines(&mut m, source.as_str());
            stdlib.modules.insert(i, (key, m));
            proof {
                assert(stdlib.models() =~= apply_module(
                    old(stdlib).models(),
                    ns@,
                    source@,
                ));
            }
        },
        None => {
            let mut m = Module::new(ns.clone());
            fold_lines(&mut m, source.as_str());
            stdlib.modules.push((ns, m));
            proof {
                assert(extend_model(module_new_model(stdlib.models()[stdlib.models().len()
                    - 1].0), doc_fold(split_spec(source@, '\n'))) == stdlib.models().last().1);
                assert(stdlib.models() =~= apply_module(
                    old(stdlib).models(),
                    ns@,
                    source@,
                ));
            }
        },
    }
}

/// The parsed library a module map produces, its sources folded in order.
pub open spec fn build_fold(entries: Seq<(Seq<char>, Seq<char>)>) -> Seq<
    (Seq<char>, ModuleModel),
>
    decreases entries.len(),
{
    if entries.len() == 0 {
        Seq::empty()
    } else {
        apply_module(
            build_fold(entries.drop_last()),
            entries.last().0,
            entries.last().1,
        )
    }
}

/// Parses every module source of the map into a fresh library, in order.
/// Rendering the result to markdown files belongs to the caller.
pub fn build_stdlib_docs(module_map: &ModuleMap) -> (r: Stdlib)
    requires
        forall|i: int|
            0 <= i < module_map@.len() ==> rfind_sep((#[trigger] module_map@[i]).0@) is Some,
    ensures
        r.wf(),
        r.models() == build_fold(
            module_map@.map(|i: int, p: (String, String)| (p.0@, p.1@)),
        ),
{
    let ghost entries = module_map@.map(|i: int, p: (String, String)| (p.0@, p.1@));
    let mut stdlib = Stdlib::new();
    let mut i: usize = 0;
    proof {
        assert(entries.subrange(0, 0) =~= Seq::<(Seq<char>, Seq<char>)>::empty());
    }
    while i < module_map.len()
        invariant
            i <= module_map@.len(),
            entries == module_map@.map(|i: int, p: (String, String)| (p.0@, p.1@)),
            forall|j: int|
                0 <= j < module_map@.len() ==> rfind_sep(
                    (#[trigger] module_map@[j]).0@,
                ) is Some,
            stdlib.wf(),
            stdlib.models() == build_fold(entries.subrange(0, i as int)),
        decreases module_map@.len() - i,
    {
        let ns = module_map[i].0.clone();
        let source = module_map[i].1.clone();
        parse_module(ns, source, &mut stdlib);
        proof {
            assert(entries.subrange(0, i + 1).drop_last() =~= entries.subrange(0, i as int));
            assert(entries.subrange(0, i + 1).last() == entries[i as int]);
        }
        i = i + 1;
    }
    proof {
        assert(entries.subrange(0, entries.len() as int) =~= entries);
    }
    stdlib
}

/// A scan that hits `ns` first at `i` finds it there.
proof fn lemma_find_model_at(models: Seq<(Seq<char>, ModuleModel)>, ns: Seq<char>, i: int)
    requires
        0 <= i < models.len(),
        models[i].0 == ns,
        forall|j: int| 0 <= j < i ==> (#[trigger] models[j]).0 != ns,
    ensures
        find_model(models, ns) == Some(i),
    decreases i,
{
    if i > 0 {
        assert(forall|j: int| 0 <= j < i - 1 ==> (#[trigger] models.skip(1)[j]).0 != ns);
        lemma_find_model_at(models.skip(1), ns, i - 1);
    }
}

/// A namespace no entry bears is not found.
proof fn lemma_find_model_absent(models: Seq<(Seq<char>, ModuleModel)>, ns: Seq<char>)
    requires
        forall|j: int| 0 <= j < models.len() ==> (#[trigger] models[j]).0 != ns,
    ensures
        find_model(models, ns) is None,
    decreases models.len(),
{
    if models.len() > 0 {
        lemma_find_model_absent(models.skip(1), ns);
    }
}

/// A `::` separator exists only where both its characters fit.
proof fn lemma_rfind_sep_bounds(s: Seq<char>)
    ensures
        rfind_sep(s) matches Some(i) ==> 0 <= i && i + 2 <= s.len(),
    decreases s.len(),
{
    if s.len() >= 2 && !(s[s.len() - 2] == ':' && s[s.len() - 1] == ':') {
        lemma_rfind_sep_bounds(s.drop_last());
    }
}

} // verus!
