//! The call graph that the LLVM phase writes into `.rlc` files: a line that
//! is not indented names a caller, and each following line indented by five
//! spaces names one of its callees.
use vstd::prelude::*;

use crate::analysis::type_analysis::TypeAnalysis;
use crate::text::{ends_with, is_prefix, is_suffix, starts_with, str_eq, chars_of, string_of_chars};

verus! {

/// The indentation that marks a callee.
pub open spec fn indent() -> Seq<char> {
    seq![' ', ' ', ' ', ' ', ' ']
}

/// `s` with every occurrence of the indentation taken out, scanning from
/// the left.
pub open spec fn strip_indents(s: Seq<char>) -> Seq<char>
    decreases s.len(),
{
    if s.len() == 0 {
        s
    } else if is_prefix(indent(), s) {
        strip_indents(s.skip(5))
    } else {
        seq![s[0]] + strip_indents(s.drop_first())
    }
}

/// A call graph: each caller with the set of its callees.
pub type GraphView = Map<Seq<char>, Set<Seq<char>>>;

/// What reading one line does to the graph and to the current caller: a
/// caller line starts the caller afresh with no callees; a callee line adds
/// the callee, without its indentation, to the current caller.
pub open spec fn read_line(st: (GraphView, Seq<char>), line: Seq<char>) -> (GraphView, Seq<char>) {
    if !is_prefix(indent(), line) {
        (st.0.insert(line, Set::empty()), line)
    } else {
        (st.0.insert(st.1, st.0[st.1].insert(strip_indents(line))), st.1)
    }
}

/// What reading the lines `lines` in order does.
pub open spec fn read_lines(st: (GraphView, Seq<char>), lines: Seq<Seq<char>>) -> (GraphView, Seq<char>)
    decreases lines.len(),
{
    if lines.len() == 0 {
        st
    } else {
        read_line(read_lines(st, lines.drop_last()), lines.last())
    }
}

/// The lines of a file can be read into the graph `g`: the first line names
/// a caller, unless the graph already holds the empty caller that a file
/// starts with.
pub open spec fn file_readable(g: GraphView, lines: Seq<Seq<char>>) -> bool {
    lines.len() == 0 || !is_prefix(indent(), lines[0]) || g.contains_key(Seq::empty())
}

/// What reading the files `files` in order does to the graph `g`; each file
/// starts with the empty caller.
pub open spec fn read_files(g: GraphView, files: Seq<Seq<Seq<char>>>) -> GraphView
    decreases files.len(),
{
    if files.len() == 0 {
        g
    } else {
        read_lines((read_files(g, files.drop_last()), Seq::empty()), files.last()).0
    }
}

/// The graph that the entries `v` give.
pub open spec fn graph_of(v: Seq<(String, Vec<String>)>) -> GraphView {
    Map::new(
        |s: Seq<char>| exists|i: int| 0 <= i < v.len() && v[i].0@ == s,
        |s: Seq<char>| v[choose|i: int| 0 <= i < v.len() && v[i].0@ == s].1.deep_view().to_set(),
    )
}

/// No caller occurs twice among the entries `v`.
pub open spec fn unique_callers(v: Seq<(String, Vec<String>)>) -> bool {
    forall|i: int, j: int| #![trigger v[i], v[j]] 0 <= i < j < v.len() ==> v[i].0@ != v[j].0@
}

proof fn lemma_graph_at(v: Seq<(String, Vec<String>)>, i: int)
    requires
        unique_callers(v),
        0 <= i < v.len(),
    ensures
        graph_of(v).contains_key(v[i].0@),
        graph_of(v)[v[i].0@] == v[i].1.deep_view().to_set(),
{
    let k = choose|k: int| 0 <= k < v.len() && v[k].0@ == v[i].0@;
    if k < i {
        assert(v[k].0@ != v[i].0@);
    } else if k > i {
        assert(v[i].0@ != v[k].0@);
    }
}

proof fn lemma_graph_update(v: Seq<(String, Vec<String>)>, i: int, e: (String, Vec<String>))
    requires
        unique_callers(v),
        0 <= i < v.len(),
        v[i].0@ == e.0@,
    ensures
        unique_callers(v.update(i, e)),
        graph_of(v.update(i, e)) == graph_of(v).insert(e.0@, e.1.deep_view().to_set()),
{
    let w = v.update(i, e);
    assert forall|a: int, b: int| #![trigger w[a], w[b]] 0 <= a < b < w.len() implies w[a].0@ != w[b].0@ by {
        assert(v[a].0@ == w[a].0@ && v[b].0@ == w[b].0@);
        assert(v[a].0@ != v[b].0@);
    }
    let g2 = graph_of(v).insert(e.0@, e.1.deep_view().to_set());
    assert forall|s: Seq<char>| #[trigger] graph_of(w).contains_key(s) == g2.contains_key(s) by {
        if graph_of(w).contains_key(s) {
            let j = choose|j: int| 0 <= j < w.len() && w[j].0@ == s;
            assert(v[j].0@ == s);
        }
        if graph_of(v).contains_key(s) {
            let j = choose|j: int| 0 <= j < v.len() && v[j].0@ == s;
            assert(w[j].0@ == s);
        }
        if s == e.0@ {
            assert(w[i].0@ == s);
        }
    }
    assert forall|s: Seq<char>| graph_of(w).contains_key(s) implies graph_of(w)[s] == g2[s] by {
        let j = choose|j: int| 0 <= j < w.len() && w[j].0@ == s;
        lemma_graph_at(w, j);
        if j != i {
            lemma_graph_at(v, j);
        }
    }
    assert(graph_of(w) =~= g2);
}

proof fn lemma_graph_push(v: Seq<(String, Vec<String>)>, e: (String, Vec<String>))
    requires
        unique_callers(v),
        !graph_of(v).contains_key(e.0@),
    ensures
        unique_callers(v.push(e)),
        graph_of(v.push(e)) == graph_of(v).insert(e.0@, e.1.deep_view().to_set()),
{
    let w = v.push(e);
    assert forall|a: int, b: int| #![trigger w[a], w[b]] 0 <= a < b < w.len() implies w[a].0@ != w[b].0@ by {
        if b == v.len() {
            assert(w[a].0@ == v[a].0@);
        } else {
            assert(v[a].0@ != v[b].0@);
        }
    }
    let g2 = graph_of(v).insert(e.0@, e.1.deep_view().to_set());
    assert forall|s: Seq<char>| #[trigger] graph_of(w).contains_key(s) == g2.contains_key(s) by {
        if graph_of(w).contains_key(s) {
            let j = choose|j: int| 0 <= j < w.len() && w[j].0@ == s;
            if j < v.len() {
                assert(v[j].0@ == s);
            }
        }
        if graph_of(v).contains_key(s) {
            let j = choose|j: int| 0 <= j < v.len() && v[j].0@ == s;
            assert(w[j].0@ == s);
        }
        if s == e.0@ {
            assert(w[v.len() as int].0@ == s);
        }
    }
    assert forall|s: Seq<char>| graph_of(w).contains_key(s) implies graph_of(w)[s] == g2[s] by {
        let j = choose|j: int| 0 <= j < w.len() && w[j].0@ == s;
        lemma_graph_at(w, j);
        if j < v.len() {
            lemma_graph_at(v, j);
        }
    }
    assert(graph_of(w) =~= g2);
}

/// The call graph read so far.
pub struct CallGraph {
    entries: Vec<(String, Vec<String>)>,
}

impl CallGraph {
    /// Each caller read, with the set of its callees.
    pub closed spec fn view(&self) -> GraphView {
        graph_of(self.entries@)
    }

    /// No caller is held twice, nor a callee twice for one caller.
    pub closed spec fn wf(&self) -> bool {
        &&& unique_callers(self.entries@)
        &&& forall|i: int| 0 <= i < self.entries@.len() ==> (#[trigger] self.entries@[i]).1.deep_view().no_duplicates()
    }

    /// The empty graph.
    pub fn new() -> (r: Self)
        ensures
            r.wf(),
            r.view() == GraphView::empty(),
    {
        let r = CallGraph { entries: Vec::new() };
        assert(r.view() =~= GraphView::empty());
        r
    }

    fn index_of(&self, s: &str) -> (r: Option<usize>)
        requires
            self.wf(),
        ensures
            match r {
                Some(i) => i < self.entries@.len() && self.entries@[i as int].0@ == s@,
                None => !self.view().contains_key(s@),
            },
    {
        let mut i: usize = 0;
        while i < self.entries.len()
            invariant
                i <= self.entries@.len(),
                forall|j: int| 0 <= j < i ==> self.entries@[j].0@ != s@,
            decreases self.entries@.len() - i,
        {
            if str_eq(self.entries[i].0.as_str(), s) {
                return Some(i);
            }
            i = i + 1;
        }
        None
    }

    /// The callees of `caller`, if it was read.
    pub fn callees(&self, caller: &str) -> (r: Option<Vec<String>>)
        requires
            self.wf(),
        ensures
            match r {
                Some(v) => self.view().contains_key(caller@) && v.deep_view().to_set() == self.view()[caller@]
                    && v.deep_view().no_duplicates(),
                None => !self.view().contains_key(caller@),
            },
    {
        match self.index_of(caller) {
            Some(i) => {
                proof {
                    lemma_graph_at(self.entries@, i as int);
                }
                assert(self.entries@[i as int].1.deep_view().no_duplicates());
                Some(copy_strings(&self.entries[i].1))
            },
            None => None,
        }
    }

    /// Starts `caller` afresh, with no callees.
    pub fn start_caller(&mut self, caller: &str)
        requires
            old(self).wf(),
        ensures
            final(self).wf(),
            final(self).view() == old(self).view().insert(caller@, Set::empty()),
    {
        let e: (String, Vec<String>) = (string_of_chars(&chars_of(caller)), Vec::new());
        assert(e.1.deep_view().to_set() =~= Set::<Seq<char>>::empty());
        assert(e.1.deep_view().no_duplicates());
        match self.index_of(caller) {
            Some(i) => {
                proof {
                    lemma_graph_update(self.entries@, i as int, e);
                }
                self.entries.set(i, e);
            },
            None => {
                proof {
                    lemma_graph_push(self.entries@, e);
                }
                self.entries.push(e);
            },
        }
    }

    /// Adds `callee` to the callees of `caller`, which was read.
    pub fn add_callee(&mut self, caller: &str, callee: String)
        requires
            old(self).wf(),
            old(self).view().contains_key(caller@),
        ensures
            final(self).wf(),
            final(self).view() == old(self).view().insert(caller@, old(self).view()[caller@].insert(callee@)),
    {
        let i = self.index_of(caller).unwrap();
        proof {
            lemma_graph_at(self.entries@, i as int);
        }
        let mut cs = copy_strings(&self.entries[i].1);
        let ghost before = cs.deep_view();
        if !contains_string(&cs, callee.as_str()) {
            cs.push(callee);
            assert(cs.deep_view() =~= before.push(callee@));
            proof {
                before.lemma_push_to_set_commute(callee@);
            }
            assert(cs.deep_view().no_duplicates()) by {
                assert forall|a: int, b: int| 0 <= a < b < cs.deep_view().len() implies cs.deep_view()[a]
                    != cs.deep_view()[b] by {
                    if b == before.len() {
                        assert(before.contains(before[a]));
                    }
                }
            }
        } else {
            assert(before.to_set().insert(callee@) =~= before.to_set());
        }
        let name = string_of_chars(&chars_of(caller));
        let e = (name, cs);
        proof {
            lemma_graph_update(self.entries@, i as int, e);
        }
        self.entries.set(i, e);
    }
}

/// A copy of the strings `v`.
fn copy_strings(v: &Vec<String>) -> (r: Vec<String>)
    ensures
        r.deep_view() == v.deep_view(),
{
    crate::cargo_rlc::copy_strings(v)
}

/// Whether `s` is among `v`.
fn contains_string(v: &Vec<String>, s: &str) -> (r: bool)
    ensures
        r == v.deep_view().contains(s@),
{
    crate::cargo_rlc::contains_arg(v, s)
}


/// `s` with every occurrence of the five-space indentation taken out.
pub fn strip_indents_exec(s: &str) -> (r: String)
    ensures
        r@ == strip_indents(s@),
{
    let cs = chars_of(s);
    let n = cs.len();
    let mut out: Vec<char> = Vec::new();
    let mut i: usize = 0;
    assert(s@.skip(0) =~= s@);
    assert(out@ + strip_indents(s@) =~= strip_indents(s@));
    while i < n
        invariant
            i <= n,
            n == cs@.len(),
            cs@ == s@,
            strip_indents(s@) == out@ + strip_indents(s@.skip(i as int)),
        decreases n - i,
    {
        let ghost rest = s@.skip(i as int);
        if n - i >= 5 && cs[i] == ' ' && cs[i + 1] == ' ' && cs[i + 2] == ' ' && cs[i + 3] == ' ' && cs[i + 4] == ' ' {
            assert(rest.subrange(0, 5) =~= indent());
            assert(rest.skip(5) =~= s@.skip(i + 5));
            i = i + 5;
        } else {
            assert(!is_prefix(indent(), rest)) by {
                if is_prefix(indent(), rest) {
                    assert(rest.subrange(0, 5)[0] == ' ');
                    assert(rest.subrange(0, 5)[1] == ' ');
                    assert(rest.subrange(0, 5)[2] == ' ');
                    assert(rest.subrange(0, 5)[3] == ' ');
                    assert(rest.subrange(0, 5)[4] == ' ');
                }
            }
            assert(rest.drop_first() =~= s@.skip(i + 1));
            let ghost prev = out@;
            out.push(cs[i]);
            assert(out@ + strip_indents(s@.skip(i + 1)) =~= prev + (seq![rest[0]] + strip_indents(rest.drop_first())));
            i = i + 1;
        }
    }
    assert(s@.skip(n as int) =~= Seq::<char>::empty());
    assert(out@ =~= out@ + strip_indents(s@.skip(n as int)));
    string_of_chars(&out)
}

impl CallGraph {
    /// Reads the lines of one file into the graph, the current caller
    /// starting out empty.
    pub fn read_file(&mut self, lines: &Vec<String>)
        requires
            old(self).wf(),
            file_readable(old(self).view(), lines.deep_view()),
        ensures
            final(self).wf(),
            final(self).view() == read_lines((old(self).view(), Seq::<char>::empty()), lines.deep_view()).0,
    {
        let ghost ls = lines.deep_view();
        let ghost g0 = self.view();
        let mut caller = String::new();
        let mut i: usize = 0;
        while i < lines.len()
            invariant
                i <= ls.len(),
                ls == lines.deep_view(),
                self.wf(),
                file_readable(g0, ls),
                read_lines((g0, Seq::<char>::empty()), ls.take(i as int)) == (self.view(), caller@),
                i > 0 || caller@ == Seq::<char>::empty(),
                i > 0 ==> self.view().contains_key(caller@),
                i == 0 ==> self.view() == g0,
            decreases ls.len() - i,
        {
            let line = lines[i].as_str();
            assert(ls.take(i + 1).drop_last() =~= ls.take(i as int));
            assert(ls[i as int] == line@);
            if !starts_with(line, "     ") {
                proof {
                    reveal_strlit("     ");
                    assert("     "@ =~= indent());
                }
                self.start_caller(line);
                caller = string_of_chars(&chars_of(line));
            } else {
                proof {
                    reveal_strlit("     ");
                    assert("     "@ =~= indent());
                }
                let callee = strip_indents_exec(line);
                self.add_callee(caller.as_str(), callee);
            }
            i = i + 1;
        }
        assert(ls.take(ls.len() as int) =~= ls);
    }
}

impl TypeAnalysis {
    /// The call graph of the files `files` that the LLVM phase wrote, each
    /// given by its lines, read in order; none when a file starts with a
    /// callee and no caller is there to take it.
    pub fn init(&self, files: &Vec<Vec<String>>) -> (r: Option<CallGraph>)
        ensures
            match r {
                Some(g) => g.wf() && g.view() == read_files(GraphView::empty(), files.deep_view()),
                None => !files_readable(files.deep_view()),
            },
    {
        read_call_graph(files)
    }
}

/// The call graph of the files `files`, each given by its lines, read in
/// order.
fn read_call_graph(files: &Vec<Vec<String>>) -> (r: Option<CallGraph>)
    ensures
        match r {
            Some(g) => g.wf() && g.view() == read_files(GraphView::empty(), files.deep_view()),
            None => !files_readable(files.deep_view()),
        },
{
    let mut g = CallGraph::new();
    let ghost fs = files.deep_view();
    let mut i: usize = 0;
    while i < files.len()
        invariant
            i <= fs.len(),
            fs == files.deep_view(),
            g.wf(),
            g.view() == read_files(GraphView::empty(), fs.take(i as int)),
            files_readable(fs.take(i as int)),
        decreases fs.len() - i,
    {
        assert(fs.take(i + 1).drop_last() =~= fs.take(i as int));
        assert(fs[i as int] == files[i as int].deep_view());
        let first_indented = files[i].len() > 0 && starts_with(files[i][0].as_str(), "     ");
        let has_empty = g.callees("").is_some();
        proof {
            reveal_strlit("     ");
            reveal_strlit("");
            assert("     "@ =~= indent());
            assert(""@ =~= Seq::<char>::empty());
            if files[i as int]@.len() > 0 {
                assert(fs[i as int][0] == files[i as int]@[0]@);
            }
        }
        assert(first_indented == (fs[i as int].len() > 0 && is_prefix(indent(), fs[i as int][0])));
        assert(has_empty == g.view().contains_key(Seq::<char>::empty()));
        if first_indented && !has_empty {
            proof {
                assert(!file_readable(g.view(), fs[i as int]));
                if files_readable(fs) {
                    lemma_files_readable_prefix(fs, i + 1);
                    let p = fs.take(i + 1);
                    assert(p.drop_last() =~= fs.take(i as int));
                    assert(p.last() == fs[i as int]);
                    assert(false);
                }
            }
            return None;
        }
        assert(file_readable(g.view(), fs[i as int]));
        g.read_file(&files[i]);
        proof {
            let p = fs.take(i + 1);
            assert(p.drop_last() =~= fs.take(i as int));
            assert(p.last() == fs[i as int]);
        }
        i = i + 1;
    }
    assert(fs.take(fs.len() as int) =~= fs);
    Some(g)
}

/// Each file, read after the ones before it, can be read.
pub open spec fn files_readable(files: Seq<Seq<Seq<char>>>) -> bool
    decreases files.len(),
{
    files.len() == 0 || (files_readable(files.drop_last()) && file_readable(
        read_files(GraphView::empty(), files.drop_last()),
        files.last(),
    ))
}

/// The files before a readable list are readable.
pub proof fn lemma_files_readable_prefix(files: Seq<Seq<Seq<char>>>, k: int)
    requires
        0 <= k <= files.len(),
        files_readable(files),
    ensures
        files_readable(files.take(k)),
    decreases files.len(),
{
    if k < files.len() {
        assert(files.drop_last().take(k) =~= files.take(k));
        lemma_files_readable_prefix(files.drop_last(), k);
    } else {
        assert(files.take(k) =~= files);
    }
}

/// Whether the file named `name` holds a call graph.
pub fn is_call_graph_file(name: &str) -> (r: bool)
    ensures
        r == is_suffix(".rlc"@, name@),
{
    ends_with(name, ".rlc")
}

} // verus!
