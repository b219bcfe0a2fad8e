//! The parser: its state, the step that commits one fragment, and the
//! loop over a whole program.

use crate::chars::{
    count_newlines, lemma_count_newlines_bounds, lemma_count_newlines_split,
    lemma_run_end_bounds, lemma_run_end_is, newlines_between, same_ignoring_case, CharClass,
};
use crate::fragment::{
    alias_directive, alias_parts, fragment, lemma_alias_directive, lemma_fragment_advances,
    spec_fragment,
};
use crate::lexical::{trivia, trivia_end};
use crate::numeral::digit_value;
use crate::source::Source;
use crate::step::{SpecStep, Step};
use crate::symbols::SymbolTable;
use crate::syntax::{FragmentView, LineNumber, OctoFragment};
use vstd::prelude::*;

verus! {

/// The alternation that was being tried when the input was given up.
#[derive(Debug, Clone, Copy, PartialEq, Eq)]
pub enum Context {
    /// The forms of a fragment.
    Fragment,
    /// The forms of a numeral.
    Numeral,
}

/// Why a program was not accepted.
#[derive(Debug, PartialEq, Eq)]
pub enum OctoError {
    /// No form of a fragment matches the input that is left.
    SyntaxError { line: LineNumber, context: Context, remaining: String },
    /// A numeral is written correctly but lies outside the integer range.
    ValueError { line: LineNumber, context: Context, remaining: String },
}

/// The value of an [`OctoError`].
pub enum ErrorView {
    SyntaxError { line: int, context: Context, remaining: Seq<char> },
    ValueError { line: int, context: Context, remaining: Seq<char> },
}

impl View for OctoError {
    type V = ErrorView;

    open spec fn view(&self) -> ErrorView {
        match *self {
            OctoError::SyntaxError { line, context, remaining } => ErrorView::SyntaxError {
                line: line as int,
                context,
                remaining: remaining@,
            },
            OctoError::ValueError { line, context, remaining } => ErrorView::ValueError {
                line: line as int,
                context,
                remaining: remaining@,
            },
        }
    }
}

/// A fragment with the stretch of the input that it was read from.
pub struct Located {
    pub fragment: FragmentView,
    /// Where the fragment starts.
    pub start: int,
    /// The position just past the fragment.
    pub next: int,
}

/// What reading a program comes to.
pub struct Outcome {
    /// The fragments read, in the order in which they were read.
    pub items: Seq<Located>,
    /// What stopped the reading before the end of the input, if anything.
    pub error: Option<ErrorView>,
    /// The number of line feeds consumed.
    pub line: int,
}

impl Outcome {
    /// The fragments alone.
    pub open spec fn fragments(self) -> Seq<FragmentView> {
        self.items.map_values(|item: Located| item.fragment)
    }
}

/// Reads a program from `pos` on, where `line` line feeds were consumed
/// before `pos`: trivia, one fragment, and so on until the input is used
/// up or no fragment can be read.
pub open spec fn spec_program(s: Seq<char>, pos: int, line: int) -> Outcome
    decreases s.len() - pos,
    via spec_program_decreases
{
    let start = trivia_end(s, pos);
    let reached = line + count_newlines(s, pos, start);
    if !(0 <= start < s.len()) {
        Outcome { items: Seq::empty(), error: None, line: reached }
    } else {
        match spec_fragment(s, start, reached) {
            SpecStep::Match { value, next } => {
                let rest = spec_program(s, next, value.line());
                Outcome {
                    items: seq![Located { fragment: value, start, next }] + rest.items,
                    error: rest.error,
                    line: rest.line,
                }
            },
            SpecStep::NoMatch => Outcome {
                items: Seq::empty(),
                error: Some(
                    ErrorView::SyntaxError {
                        line: reached,
                        context: Context::Fragment,
                        remaining: s.subrange(start, s.len() as int),
                    },
                ),
                line: reached,
            },
            SpecStep::Overflow { at } => Outcome {
                items: Seq::empty(),
                error: Some(
                    ErrorView::ValueError {
                        line: reached + count_newlines(s, start, at),
                        context: Context::Numeral,
                        remaining: s.subrange(at, s.len() as int),
                    },
                ),
                line: reached,
            },
        }
    }
}

#[via_fn]
proof fn spec_program_decreases(s: Seq<char>, pos: int, line: int) {
    let start = trivia_end(s, pos);
    let reached = line + count_newlines(s, pos, start);
    lemma_run_end_bounds(s, pos, CharClass::Trivia);
    if 0 <= start < s.len() {
        lemma_fragment_advances(s, start, reached);
    }
}

/// The position from which the fragment of index `i` was looked for:
/// `pos` for the first, the end of the fragment before it for the others.
pub open spec fn resumed_at(items: Seq<Located>, pos: int, i: int) -> int {
    if i == 0 {
        pos
    } else {
        items[i - 1].next
    }
}

/// The line counter is the number of line feeds consumed.
///
/// Whatever the input, the fragment of every index carries the count that
/// the parser started with plus the number of line feeds between `pos`
/// and the fragment's own end; and where the whole input was read, the
/// counter ends at the starting count plus the line feeds from `pos` to
/// the end. No line feed is counted twice and none is left out.
pub proof fn lemma_line_counts_newlines(s: Seq<char>, pos: int, line: int)
    requires
        0 <= pos <= s.len(),
    ensures
        forall|i: int|
            0 <= i < spec_program(s, pos, line).items.len() ==> {
                let item = #[trigger] spec_program(s, pos, line).items[i];
                &&& pos <= item.start < item.next <= s.len()
                &&& item.fragment.line() == line + count_newlines(s, pos, item.next)
            },
        spec_program(s, pos, line).error is None ==> spec_program(s, pos, line).line == line
            + count_newlines(s, pos, s.len() as int),
    decreases s.len() - pos,
{
    let out = spec_program(s, pos, line);
    let start = trivia_end(s, pos);
    let reached = line + count_newlines(s, pos, start);
    lemma_run_end_bounds(s, pos, CharClass::Trivia);
    if 0 <= start < s.len() {
        lemma_fragment_advances(s, start, reached);
        match spec_fragment(s, start, reached) {
            SpecStep::Match { value, next } => {
                let rest = spec_program(s, next, value.line());
                lemma_line_counts_newlines(s, next, value.line());
                lemma_count_newlines_split(s, pos, start, next);
                assert(value.line() == reached + count_newlines(s, start, next));
                lemma_count_newlines_split(s, pos, next, s.len() as int);
                assert forall|i: int| 0 <= i < out.items.len() implies {
                    let item = #[trigger] out.items[i];
                    &&& pos <= item.start < item.next <= s.len()
                    &&& item.fragment.line() == line + count_newlines(s, pos, item.next)
                } by {
                    if i > 0 {
                        let item = rest.items[i - 1];
                        assert(out.items[i] == item);
                        lemma_count_newlines_split(s, pos, next, item.next);
                    }
                }
            },
            _ => {},
        }
    }
}

/// The line counter never goes back.
///
/// Whatever the input, no fragment carries a smaller line number than the
/// count that the parser started with, nor than a fragment before it.
pub proof fn lemma_lines_never_decrease(s: Seq<char>, pos: int, line: int)
    requires
        0 <= pos <= s.len(),
    ensures
        forall|i: int|
            0 <= i < spec_program(s, pos, line).items.len() ==> line <= (
            #[trigger] spec_program(s, pos, line).items[i]).fragment.line(),
        forall|i: int, j: int|
            0 <= i < j < spec_program(s, pos, line).items.len() ==> (
            #[trigger] spec_program(s, pos, line).items[i]).fragment.line() <= (
            #[trigger] spec_program(s, pos, line).items[j]).fragment.line(),
{
    let items = spec_program(s, pos, line).items;
    lemma_line_counts_newlines(s, pos, line);
    lemma_fragments_in_source_order(s, pos, line);
    assert forall|i: int| 0 <= i < items.len() implies line <= (
    #[trigger] items[i]).fragment.line() by {
        lemma_count_newlines_bounds(s, pos, items[i].next);
    }
    assert forall|i: int, j: int| 0 <= i < j < items.len() implies (
    #[trigger] items[i]).fragment.line() <= (#[trigger] items[j]).fragment.line() by {
        assert(read_in_place(s, pos, line, items, j));
        lemma_count_newlines_split(s, pos, items[i].next, items[j].next);
        lemma_count_newlines_bounds(s, items[i].next, items[j].next);
    }
}

/// Whether the fragment of index `i` among `items` is what the grammar
/// reads, with the line count reached there, where the trivia ends that
/// follows the fragment before it, or that starts at `pos` for the first.
pub open spec fn read_in_place(
    s: Seq<char>,
    pos: int,
    line: int,
    items: Seq<Located>,
    i: int,
) -> bool {
    let item = items[i];
    &&& item.start == trivia_end(s, resumed_at(items, pos, i))
    &&& pos <= resumed_at(items, pos, i) <= item.start < item.next <= s.len()
    &&& spec_fragment(s, item.start, line + count_newlines(s, pos, item.start))
        == SpecStep::Match { value: item.fragment, next: item.next }
}

/// The fragments are those of the source, in its order.
///
/// Each fragment is what the grammar reads at the place where it starts,
/// with the line count reached there. The first starts where the trivia
/// at `pos` ends, each other where the trivia after the one before it
/// ends, so that between two fragments, and before the first, there is
/// nothing but blanks and line feeds: none is left out, none is read
/// twice and none changes places. Where no error is reported, nothing but
/// trivia follows the last fragment.
pub proof fn lemma_fragments_in_source_order(s: Seq<char>, pos: int, line: int)
    requires
        0 <= pos <= s.len(),
    ensures
        forall|i: int|
            0 <= i < spec_program(s, pos, line).items.len() ==> #[trigger] read_in_place(
                s,
                pos,
                line,
                spec_program(s, pos, line).items,
                i,
            ),
        forall|i: int, j: int|
            0 <= i < j < spec_program(s, pos, line).items.len() ==> (
            #[trigger] spec_program(s, pos, line).items[i]).next <= (#[trigger] spec_program(
                s,
                pos,
                line,
            ).items[j]).start,
        spec_program(s, pos, line).error is None ==> trivia_end(
            s,
            resumed_at(
                spec_program(s, pos, line).items,
                pos,
                spec_program(s, pos, line).items.len() as int,
            ),
        ) == s.len(),
    decreases s.len() - pos,
{
    let out = spec_program(s, pos, line);
    let start = trivia_end(s, pos);
    let reached = line + count_newlines(s, pos, start);
    lemma_run_end_bounds(s, pos, CharClass::Trivia);
    if 0 <= start < s.len() {
        lemma_fragment_advances(s, start, reached);
        match spec_fragment(s, start, reached) {
            SpecStep::Match { value, next } => {
                let rest = spec_program(s, next, value.line());
                lemma_fragments_in_source_order(s, next, value.line());
                lemma_count_newlines_split(s, pos, start, next);
                assert(out.items[0] == Located { fragment: value, start, next });
                assert forall|i: int| 0 <= i < out.items.len() implies #[trigger] read_in_place(
                    s,
                    pos,
                    line,
                    out.items,
                    i,
                ) by {
                    if i > 0 {
                        let item = rest.items[i - 1];
                        assert(out.items[i] == item);
                        assert(read_in_place(s, next, value.line(), rest.items, i - 1));
                        if i > 1 {
                            assert(read_in_place(s, next, value.line(), rest.items, i - 2));
                        }
                        assert(resumed_at(out.items, pos, i) == resumed_at(rest.items, next, i - 1))
                            by {
                            if i > 1 {
                                assert(out.items[i - 1] == rest.items[i - 2]);
                            }
                        }
                        lemma_count_newlines_split(s, pos, next, item.start);
                    }
                }
                assert forall|i: int, j: int| 0 <= i < j < out.items.len() implies (
                #[trigger] out.items[i]).next <= (#[trigger] out.items[j]).start by {
                    assert(out.items[j] == rest.items[j - 1]);
                    assert(read_in_place(s, next, value.line(), rest.items, j - 1));
                    if i > 0 {
                        assert(out.items[i] == rest.items[i - 1]);
                    } else {
                        assert(resumed_at(rest.items, next, j - 1) >= next);
                    }
                }
                if out.error is None {
                    let n = out.items.len() as int;
                    assert(resumed_at(out.items, pos, n) == resumed_at(rest.items, next, n - 1))
                        by {
                        if n > 1 {
                            assert(out.items[n - 1] == rest.items[n - 2]);
                        }
                    }
                }
            },
            _ => {},
        }
    }
}

/// The alias table after `f` was read.
pub open spec fn record_alias(table: Map<Seq<char>, usize>, f: FragmentView) -> Map<
    Seq<char>,
    usize,
> {
    match f {
        FragmentView::Alias(_, reg, name) => table.insert(name, reg as usize),
        _ => table,
    }
}

/// The label table after `f` was read. The address of a label is not
/// known while the source is read.
pub open spec fn record_label(table: Map<Seq<char>, Option<usize>>, f: FragmentView) -> Map<
    Seq<char>,
    Option<usize>,
> {
    match f {
        FragmentView::Label(_, name) => table.insert(name, None),
        _ => table,
    }
}

/// The alias table after the fragments `fs` were read in turn.
pub open spec fn record_aliases(table: Map<Seq<char>, usize>, fs: Seq<FragmentView>) -> Map<
    Seq<char>,
    usize,
>
    decreases fs.len(),
{
    if fs.len() == 0 {
        table
    } else {
        record_alias(record_aliases(table, fs.drop_last()), fs.last())
    }
}

/// The label table after the fragments `fs` were read in turn.
pub open spec fn record_labels(
    table: Map<Seq<char>, Option<usize>>,
    fs: Seq<FragmentView>,
) -> Map<Seq<char>, Option<usize>>
    decreases fs.len(),
{
    if fs.len() == 0 {
        table
    } else {
        record_label(record_labels(table, fs.drop_last()), fs.last())
    }
}

/// A program that is one alias definition yields one alias and enters
/// it.
///
/// Let the parts be those of an alias definition of `name` for the
/// register of digit `d`, as [`alias_parts`] says, followed by nothing
/// but blanks and line feeds. Read as a program, this is accepted, it
/// yields exactly one fragment, the alias of that name for that register,
/// and after it the alias table maps the name to the register, whatever
/// it held before.
pub proof fn lemma_alias_program(
    keyword: Seq<char>,
    gap1: Seq<char>,
    name: Seq<char>,
    gap2: Seq<char>,
    v: char,
    d: char,
    trailing: Seq<char>,
    line: int,
    table: Map<Seq<char>, usize>,
)
    requires
        alias_parts(keyword, gap1, name, gap2, v, d),
        forall|i: int|
            0 <= i < trailing.len() ==> CharClass::Trivia.contains(#[trigger] trailing[i]),
    ensures
        ({
            let out = spec_program(
                alias_directive(keyword, gap1, name, gap2, v, d) + trailing,
                0,
                line,
            );
            &&& out.error is None
            &&& out.fragments() == seq![FragmentView::Alias(line, digit_value(d), name)]
            &&& record_aliases(table, out.fragments()) == table.insert(
                name,
                digit_value(d) as usize,
            )
        }),
{
    let text = alias_directive(keyword, gap1, name, gap2, v, d);
    let s = text + trailing;
    let next = text.len() as int;
    assert(Seq::<char>::empty() + text + trailing =~= s);
    lemma_alias_directive(Seq::empty(), keyword, gap1, name, gap2, v, d, trailing, line);
    let alias = FragmentView::Alias(line, digit_value(d), name);
    assert(spec_fragment(s, 0, line) == SpecStep::Match { value: alias, next });
    lemma_fragment_advances(s, 0, line);
    lemma_run_end_bounds(s, 0, CharClass::Trivia);
    assert(trivia_end(s, 0) == 0) by {
        reveal_strlit(":alias");
        assert(same_ignoring_case(keyword[0int + 0], ":alias"@[0]));
        assert(s[0] == keyword[0]);
    }
    assert forall|i: int| next <= i < s.len() implies CharClass::Trivia.contains(
        #[trigger] s[i],
    ) by {
        assert(s[i] == trailing[i - next]);
    }
    lemma_run_end_is(s, next, s.len() as int, CharClass::Trivia);
    let rest = spec_program(s, next, line);
    assert(rest.items =~= Seq::<Located>::empty());
    let out = spec_program(s, 0, line);
    assert(out.items =~= seq![Located { fragment: alias, start: 0, next }]);
    assert(out.fragments() =~= seq![alias]);
    assert(seq![alias].drop_last() =~= Seq::<FragmentView>::empty());
    assert(record_aliases(table, Seq::<FragmentView>::empty()) == table);
}

/// The values of a vector of fragments.
pub open spec fn fragment_views(frags: Seq<OctoFragment>) -> Seq<FragmentView> {
    frags.map_values(|f: OctoFragment| f@)
}

/// The state that is carried through a parse: the line counter and the
/// three symbol tables.
#[derive(Debug, Clone)]
pub struct OctoParser {
    /// The number of line feeds consumed so far.
    pub line_count: usize,
    /// Names given to registers.
    pub reg_aliases: SymbolTable<usize>,
    /// Labels, each with its address once that is known.
    pub addr_symbols: SymbolTable<Option<usize>>,
    /// Named constants.
    pub constants: SymbolTable<usize>,
}

impl OctoParser {
    /// A parser that has consumed nothing and knows no name.
    pub fn new() -> (p: OctoParser)
        ensures
            p.line_count == 0,
            p.reg_aliases@ == Map::<Seq<char>, usize>::empty(),
            p.addr_symbols@ == Map::<Seq<char>, Option<usize>>::empty(),
            p.constants@ == Map::<Seq<char>, usize>::empty(),
    {
        OctoParser {
            line_count: 0,
            reg_aliases: SymbolTable::new(),
            addr_symbols: SymbolTable::new(),
            constants: SymbolTable::new(),
        }
    }

    /// The number of line feeds consumed so far.
    pub fn line_count(&self) -> (n: usize)
        ensures
            n == self.line_count,
    {
        self.line_count
    }

    /// Enters `name` as another name of register `reg`.
    pub fn insert_alias(&mut self, name: String, reg: usize)
        ensures
            final(self).reg_aliases@ == old(self).reg_aliases@.insert(name@, reg),
            final(self).addr_symbols == old(self).addr_symbols,
            final(self).constants == old(self).constants,
            final(self).line_count == old(self).line_count,
    {
        self.reg_aliases.insert(name, reg);
    }

    /// Enters `name` as a label whose address is not known yet.
    pub fn insert_label(&mut self, name: String)
        ensures
            final(self).addr_symbols@ == old(self).addr_symbols@.insert(name@, None),
            final(self).reg_aliases == old(self).reg_aliases,
            final(self).constants == old(self).constants,
            final(self).line_count == old(self).line_count,
    {
        self.addr_symbols.insert(name, None);
    }

    /// Enters `name` as a constant of the given value.
    pub fn insert_constant(&mut self, name: String, value: usize)
        ensures
            final(self).constants@ == old(self).constants@.insert(name@, value),
            final(self).reg_aliases == old(self).reg_aliases,
            final(self).addr_symbols == old(self).addr_symbols,
            final(self).line_count == old(self).line_count,
    {
        self.constants.insert(name, value);
    }

    /// Reads the fragment at `pos` and, if there is one, commits it: the
    /// line counter moves to the fragment's line and a definition is
    /// entered in its table. Without a fragment the state stays as it was.
    pub fn fragment(&mut self, src: &Source, pos: usize) -> (r: Step<OctoFragment>)
        requires
            pos <= src@.len() ==> old(self).line_count + (src@.len() - pos) <= usize::MAX,
        ensures
            r@ == spec_fragment(src@, pos as int, old(self).line_count as int),
            r@.advances(src@, pos as int),
            match r {
                Step::Match { value, next } => {
                    &&& final(self).line_count as int == value@.line()
                    &&& final(self).reg_aliases@ == record_alias(old(self).reg_aliases@, value@)
                    &&& final(self).addr_symbols@ == record_label(
                        old(self).addr_symbols@,
                        value@,
                    )
                    &&& final(self).constants@ == old(self).constants@
                },
                _ => *final(self) == *old(self),
            },
    {
        let r = fragment(src, pos, self.line_count);
        match &r {
            Step::Match { value, next: _ } => {
                self.line_count = value.line();
                match value {
                    OctoFragment::Alias(_, reg, name) => {
                        self.insert_alias(name.clone(), *reg);
                    },
                    OctoFragment::Label(_, name) => {
                        self.insert_label(name.clone());
                    },
                    _ => {},
                }
            },
            _ => {},
        }
        r
    }

    /// Reads `input` as a whole program.
    ///
    /// The fragments come in the order of the source. The line counter
    /// goes on from where it stood, and every alias and label that was
    /// read is entered in its table, also where an error ends the reading.
    /// No constant is entered: the grammar has no form that defines one.
    pub fn program(&mut self, input: &str) -> (r: Result<Vec<OctoFragment>, OctoError>)
        requires
            old(self).line_count + input@.len() <= usize::MAX,
        ensures
            ({
                let out = spec_program(input@, 0, old(self).line_count as int);
                &&& match r {
                    Ok(frags) => out.error is None && fragment_views(frags@) == out.fragments(),
                    Err(e) => out.error == Some(e@),
                }
                &&& final(self).line_count as int == out.line
                &&& final(self).reg_aliases@ == record_aliases(
                    old(self).reg_aliases@,
                    out.fragments(),
                )
                &&& final(self).addr_symbols@ == record_labels(
                    old(self).addr_symbols@,
                    out.fragments(),
                )
                &&& final(self).constants@ == old(self).constants@
            }),
    {
        let src = Source::new(input);
        self.read(&src)
    }

    /// Reads the decoded input `src` as a whole program, as
    /// [`OctoParser::program`] does.
    pub fn read(&mut self, src: &Source) -> (r: Result<Vec<OctoFragment>, OctoError>)
        requires
            old(self).line_count + src@.len() <= usize::MAX,
        ensures
            ({
                let out = spec_program(src@, 0, old(self).line_count as int);
                &&& match r {
                    Ok(frags) => out.error is None && fragment_views(frags@) == out.fragments(),
                    Err(e) => out.error == Some(e@),
                }
                &&& final(self).line_count as int == out.line
                &&& final(self).reg_aliases@ == record_aliases(
                    old(self).reg_aliases@,
                    out.fragments(),
                )
                &&& final(self).addr_symbols@ == record_labels(
                    old(self).addr_symbols@,
                    out.fragments(),
                )
                &&& final(self).constants@ == old(self).constants@
            }),
    {
        let n: usize = src.len();
        let ghost s = src@;
        let ghost total = spec_program(s, 0, self.line_count as int);
        let ghost aliases = self.reg_aliases@;
        let ghost labels = self.addr_symbols@;
        let ghost done: Seq<Located> = Seq::empty();
        let mut frags: Vec<OctoFragment> = Vec::new();
        let mut pos: usize = 0;
        loop
            invariant
                s == src@,
                n == s.len(),
                pos <= n,
                self.line_count + (n - pos) <= usize::MAX,
                total == spec_program(s, 0, old(self).line_count as int),
                aliases == old(self).reg_aliases@,
                labels == old(self).addr_symbols@,
                total.items == done + spec_program(s, pos as int, self.line_count as int).items,
                total.error == spec_program(s, pos as int, self.line_count as int).error,
                total.line == spec_program(s, pos as int, self.line_count as int).line,
                fragment_views(frags@) == done.map_values(|item: Located| item.fragment),
                self.reg_aliases@ == record_aliases(aliases, fragment_views(frags@)),
                self.addr_symbols@ == record_labels(labels, fragment_views(frags@)),
                self.constants@ == old(self).constants@,
            decreases n - pos,
        {
            let ghost tail = spec_program(s, pos as int, self.line_count as int);
            let start: usize = trivia(src, pos);
            proof {
                lemma_run_end_bounds(s, pos as int, CharClass::Trivia);
                lemma_count_newlines_bounds(s, pos as int, start as int);
            }
            let skipped: usize = newlines_between(src, pos, start);
            self.line_count = self.line_count + skipped;
            if start >= n {
                proof {
                    assert(done + tail.items =~= done);
                    assert(total.fragments() == fragment_views(frags@));
                }
                return Ok(frags);
            }
            let ghost reached = self.line_count as int;
            match self.fragment(src, start) {
                Step::Match { value, next } => {
                    proof {
                        let item = Located {
                            fragment: value@,
                            start: start as int,
                            next: next as int,
                        };
                        let rest = spec_program(s, next as int, value@.line());
                        assert(tail.items == seq![item] + rest.items);
                        assert(done + tail.items =~= done.push(item) + rest.items);
                        done = done.push(item);
                        let before = fragment_views(frags@);
                        let after = fragment_views(frags@.push(value));
                        assert(after =~= before.push(value@));
                        assert(after.drop_last() =~= before);
                        assert(after =~= done.map_values(|item: Located| item.fragment));
                        lemma_count_newlines_bounds(s, start as int, next as int);
                    }
                    frags.push(value);
                    pos = next;
                },
                Step::NoMatch => {
                    proof {
                        assert(done + tail.items =~= done);
                        assert(total.fragments() == fragment_views(frags@));
                    }
                    return Err(
                        OctoError::SyntaxError {
                            line: self.line_count,
                            context: Context::Fragment,
                            remaining: src.slice(start, n),
                        },
                    );
                },
                Step::Overflow { at } => {
                    proof {
                        assert(done + tail.items =~= done);
                        assert(total.fragments() == fragment_views(frags@));
                        lemma_count_newlines_bounds(s, start as int, at as int);
                    }
                    let inside: usize = newlines_between(src, start, at);
                    return Err(
                        OctoError::ValueError {
                            line: self.line_count + inside,
                            context: Context::Numeral,
                            remaining: src.slice(at, n),
                        },
                    );
                },
            }
        }
    }
}

/// Reads `input` as a whole program with a parser of its own.
pub fn parse(input: &str) -> (r: Result<Vec<OctoFragment>, OctoError>)
    ensures
        ({
            let out = spec_program(input@, 0, 0);
            match r {
                Ok(frags) => out.error is None && fragment_views(frags@) == out.fragments(),
                Err(e) => out.error == Some(e@),
            }
        }),
{
    let mut parser = OctoParser::new();
    let src = Source::new(input);
    let n: usize = src.len();
    parser.read(&src)
}

} // verus!
