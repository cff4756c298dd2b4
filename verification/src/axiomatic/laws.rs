//! What tests, their references and their reports are for.

use super::at_file::{self, AtLine, PathLine};
use super::hash;
use super::names::{self, NameKind, NamedTable};
use super::options::{self, GraphMode, PCLimitMode, Translator};
use super::refs::{self, Line, RefsErrorView, RefsFailureView};
use super::report::{self, Verdict};
use super::result::{self, AxResult, WantedGraph};
use crate::text;
use vstd::prelude::*;

verus! {

/// The words of expectations mean what they say: what is allowed may happen,
/// and what is forbidden must not. What is required is checked by its
/// opposite, which must not happen. No other word is an expectation.
pub proof fn law_expectations(s: Seq<char>)
    ensures
        refs::expectation(s) matches Some(AxResult::Allowed(_)) <==> s == "Allowed"@,
        refs::expectation(s) matches Some(AxResult::Forbidden(_)) <==> s == "Forbidden"@ || s
            == "Required"@,
        refs::expectation(s) is None <==> s != "Allowed"@ && s != "Forbidden"@ && s != "Required"@,
{
    reveal_strlit("Allowed");
    reveal_strlit("Forbidden");
    reveal_strlit("Required");
    assert("Allowed"@.len() == 7);
    assert("Forbidden"@.len() == 9);
    assert("Required"@.len() == 8);
}

/// Whether a word says that a test is expected to be allowed.
pub open spec fn says_allowed(expected: Seq<char>) -> bool {
    expected == "Allowed"@
}

/// Whether a word is an expectation at all.
pub open spec fn is_expectation(expected: Seq<char>) -> bool {
    says_allowed(expected) || expected == "Forbidden"@ || expected == "Required"@
}

/// Whether lines are what a reference file has for a test: the test with what
/// is expected, the number of states, as many states, and whether the
/// expectation was met.
pub open spec fn is_entry(
    lines: Seq<Line>,
    test: Seq<char>,
    expected: Seq<char>,
    states: usize,
    met: bool,
) -> bool {
    &&& lines.len() == states + 3
    &&& lines[0] matches Ok(head) && text::begins_with(head@, "Test"@) && text::word(head@, 1)
        == Some(test) && text::word(head@, 2) == Some(expected)
    &&& lines[1] matches Ok(count) && text::begins_with(count@, "States"@) && (text::word(
        count@,
        1,
    ) matches Some(w) && text::unsigned(w) == Some(states))
    &&& lines.last() matches Ok(end) && text::begins_with(
        end@,
        if met {
            "Ok"@
        } else {
            "No"@
        },
    )
}

/// The reference of a test is what is expected of it if that was met, and else
/// the opposite: a test is allowed exactly if it was expected to be and that
/// was met, or if it was expected to be forbidden and that was not met.
pub proof fn law_reference_of_test(
    lines: Seq<Line>,
    test: Seq<char>,
    expected: Seq<char>,
    states: usize,
    met: bool,
    m: Map<Seq<char>, AxResult>,
)
    requires
        is_entry(lines, test, expected, states, met),
        is_expectation(expected),
    ensures
        ({
            let r = refs::references(lines, 0, m);
            &&& r is Ok
            &&& r->Ok_0.dom() == m.dom().insert(test)
            &&& forall|other: Seq<char>|
                other != test && #[trigger] m.dom().contains(other) ==> r->Ok_0[other] == m[other]
            &&& if says_allowed(expected) == met {
                r->Ok_0[test] is Allowed
            } else {
                r->Ok_0[test] is Forbidden
            }
        }),
{
    law_expectations(expected);
    reveal_strlit("Ok");
    reveal_strlit("No");
    let end = lines.last()->Ok_0@;
    assert("Ok"@[0] != "No"@[0]);
    assert("Ok"@.len() == 2 && "No"@.len() == 2);
    if text::begins_with(end, "Ok"@) && text::begins_with(end, "No"@) {
        assert(end.take(2)[0] == "Ok"@[0]);
    }
    assert(refs::line_at(lines, 2 + states) == Ok::<Seq<char>, RefsFailureView>(end));
    let result = refs::outcome(
        refs::line_at(lines, 2 + states),
        refs::expectation(expected)->0,
    )->Ok_0;
    assert(refs::references(lines, 3 + states, m.insert(test, result)) == Ok::<
        Map<Seq<char>, AxResult>,
        RefsFailureView,
    >(m.insert(test, result)));
}

/// What stands behind other lines is read as if it stood alone, on top of
/// what those say; and lines that cannot be read stay so.
pub proof fn law_references_add_up(a: Seq<Line>, b: Seq<Line>, m: Map<Seq<char>, AxResult>)
    requires
        refs::references(a, 0, m) is Ok,
    ensures
        refs::references(a + b, 0, m) == refs::references(b, 0, refs::references(a, 0, m)->Ok_0),
{
    lemma_references_prefix(a, b, 0, m);
}

proof fn lemma_references_prefix(a: Seq<Line>, b: Seq<Line>, i: int, m: Map<Seq<char>, AxResult>)
    requires
        0 <= i <= a.len(),
        refs::references(a, i, m) is Ok,
    ensures
        refs::references(a + b, i, m) == refs::references(b, 0, refs::references(a, i, m)->Ok_0),
    decreases a.len() - i,
{
    if i < a.len() {
        let line = refs::line_at(a, i)->Ok_0;
        assert(refs::line_at(a + b, i) == refs::line_at(a, i));
        if text::begins_with(line, "Test"@) {
            let (test, expected) = refs::test_header(line)->Ok_0;
            assert(refs::line_at(a, i + 1) is Ok);
            assert(refs::line_at(a + b, i + 1) == refs::line_at(a, i + 1));
            let n = refs::states(refs::line_at(a, i + 1))->Ok_0;
            assert(refs::line_at(a, i + 2 + n) is Ok);
            assert(refs::line_at(a + b, i + 2 + n) == refs::line_at(a, i + 2 + n));
            let result = refs::outcome(refs::line_at(a, i + 2 + n), expected)->Ok_0;
            lemma_references_prefix(a, b, i + 3 + n, m.insert(test, result));
        } else {
            lemma_references_prefix(a, b, i + 1, m);
        }
    } else {
        lemma_references_shift(a, b, 0, m);
    }
}

proof fn lemma_references_shift(a: Seq<Line>, b: Seq<Line>, i: int, m: Map<Seq<char>, AxResult>)
    requires
        0 <= i,
    ensures
        refs::references(a + b, a.len() + i, m) == refs::references(b, i, m),
    decreases b.len() - i,
{
    let all = a + b;
    let k = a.len() as int;
    assert forall|j: int| j >= 0 implies #[trigger] refs::line_at(all, k + j) == refs::line_at(b, j) by {
        if j < b.len() {
            assert(all[k + j] == b[j]);
        }
    }
    if i < b.len() {
        assert(refs::line_at(all, k + i) == refs::line_at(b, i));
        if let Ok(line) = refs::line_at(b, i) {
            if text::begins_with(line, "Test"@) {
                if let Ok((test, expected)) = refs::test_header(line) {
                    assert(refs::line_at(all, k + (i + 1)) == refs::line_at(b, i + 1));
                    if let Ok(n) = refs::states(refs::line_at(b, i + 1)) {
                        assert(refs::line_at(all, k + (i + 2 + n)) == refs::line_at(b, i + 2 + n));
                        if let Ok(result) = refs::outcome(refs::line_at(b, i + 2 + n), expected) {
                            lemma_references_shift(a, b, i + 3 + n, m.insert(test, result));
                        }
                    }
                }
            } else {
                lemma_references_shift(a, b, i + 1, m);
            }
        }
    }
}

/// A line that is not the start of a test says nothing where a test could
/// start.
pub proof fn law_other_lines_say_nothing(line: String, m: Map<Seq<char>, AxResult>)
    requires
        !text::begins_with(line@, "Test"@),
    ensures
        refs::references(seq![Ok::<String, String>(line)], 0, m) == Ok::<
            Map<Seq<char>, AxResult>,
            RefsFailureView,
        >(m),
{
    let lines = seq![Ok::<String, String>(line)];
    assert(refs::references(lines, 1, m) == Ok::<Map<Seq<char>, AxResult>, RefsFailureView>(m));
}

/// What is wrong with a file of references is said of the line where it is
/// wrong: a test without a name or an expectation, a word that is no
/// expectation, a line that does not give the number of states, one that does
/// not say whether the expectation was met, and an end that comes too early.
pub proof fn law_reference_errors(line: Seq<char>, expected: AxResult)
    ensures
        text::word(line, 1) is None || text::word(line, 2) is None ==> refs::test_header(line)
            == Err::<(Seq<char>, AxResult), RefsFailureView>(
            RefsFailureView::Refs(RefsErrorView::BadTestLine(line)),
        ),
        text::word(line, 1) is Some && text::word(line, 2) is Some && !is_expectation(
            text::word(line, 2)->0,
        ) ==> refs::test_header(line) == Err::<(Seq<char>, AxResult), RefsFailureView>(
            RefsFailureView::Refs(RefsErrorView::BadExpected(text::word(line, 2)->0)),
        ),
        !text::begins_with(line, "States"@) || text::word(line, 1) is None ==> refs::states(
            Ok(line),
        ) == Err::<usize, RefsFailureView>(
            RefsFailureView::Refs(RefsErrorView::BadStatesLine(line)),
        ),
        !text::begins_with(line, "Ok"@) && !text::begins_with(line, "No"@) ==> refs::outcome(
            Ok(line),
            expected,
        ) == Err::<AxResult, RefsFailureView>(
            RefsFailureView::Refs(RefsErrorView::BadResultLine(line)),
        ),
        refs::line_at(seq![], 0) == Err::<Seq<char>, RefsFailureView>(
            RefsFailureView::Refs(RefsErrorView::UnexpectedEof),
        ),
{
    if let Some(w) = text::word(line, 2) {
        law_expectations(w);
    }
}

/// A test passes exactly if its result is of the kind of its reference. If it
/// is not, an error is an error, and anything else a failure. Without a
/// reference nothing is known.
pub proof fn law_verdicts(got: AxResult, reference: AxResult)
    ensures
        report::verdict(got, None) == Verdict::Unknown,
        report::verdict(got, Some(reference)) == Verdict::Pass <==> (got is Allowed && reference
            is Allowed) || (got is Forbidden && reference is Forbidden) || (got is Error
            && reference is Error),
        report::verdict(got, Some(reference)) == Verdict::Error <==> got is Error && !(reference
            is Error),
        report::verdict(got, Some(reference)) != Verdict::Unknown,
{
}

/// As many results are counted as are allowed.
pub proof fn law_allowed_are_counted(results: Seq<AxResult>)
    ensures
        report::allowed(results, results.len()) == results.filter(|r: AxResult| r is Allowed).len(),
{
    lemma_allowed(results, results.len());
    assert(results.take(results.len() as int) =~= results);
}

proof fn lemma_allowed(results: Seq<AxResult>, n: nat)
    requires
        n <= results.len(),
    ensures
        report::allowed(results, n) == results.take(n as int).filter(
            |r: AxResult| r is Allowed,
        ).len(),
    decreases n,
{
    reveal(Seq::filter);
    if n > 0 {
        lemma_allowed(results, (n - 1) as nat);
        assert(results.take(n as int).drop_last() =~= results.take(n - 1));
    }
}

/// The lines that report an error are those of the output that begin with the
/// word for one, in their order.
pub proof fn law_error_lines(lines: Seq<Seq<char>>)
    ensures
        report::error_lines(lines, 0) == lines.filter(
            |line: Seq<char>| text::begins_with(line, "(error "@),
        ),
{
    lemma_error_lines(lines, 0);
    assert(lines.skip(0) =~= lines);
}

proof fn lemma_error_lines(lines: Seq<Seq<char>>, i: int)
    requires
        0 <= i <= lines.len(),
    ensures
        report::error_lines(lines, i) == lines.skip(i).filter(
            |line: Seq<char>| text::begins_with(line, "(error "@),
        ),
    decreases lines.len() - i,
{
    let pred = |line: Seq<char>| text::begins_with(line, "(error "@);
    reveal(Seq::filter);
    if i < lines.len() {
        lemma_error_lines(lines, i + 1);
        let rest = lines.skip(i + 1);
        assert(lines.skip(i) =~= seq![lines[i]] + rest);
        Seq::filter_distributes_over_add(seq![lines[i]], rest, pred);
        assert(seq![lines[i]].drop_last() =~= Seq::empty());
        assert(seq![lines[i]].last() == lines[i]);
        assert(Seq::<Seq<char>>::empty().filter(pred) =~= Seq::empty());
        if pred(lines[i]) {
            assert(seq![lines[i]].filter(pred) =~= seq![lines[i]]);
        } else {
            assert(seq![lines[i]].filter(pred) =~= Seq::empty());
            assert(Seq::empty() + rest.filter(pred) =~= rest.filter(pred));
        }
    } else {
        assert(lines.skip(i) =~= Seq::empty());
        assert(Seq::<Seq<char>>::empty().filter(pred) =~= Seq::empty());
    }
}

/// No graph is made without a place for it. A graph of an execution that was
/// found needs no more; one of any other has to be asked for.
pub proof fn law_wanted_graphs(output: Seq<char>, has_dot_path: bool, show_forbidden: bool)
    ensures
        ({
            let wanted = result::graph_wanted(output, has_dot_path, show_forbidden);
            let found = text::begins_with(output, "sat"@);
            &&& wanted == Some(WantedGraph::FromOutput) <==> found && has_dot_path
            &&& wanted == Some(WantedGraph::FromUnsat) <==> !found && has_dot_path && show_forbidden
        }),
{
}

/// Results are called by what they are: in reports, and in the names of files.
pub proof fn law_names_of_results(r: AxResult)
    ensures
        r is Allowed <==> r.spec_short_name()@ == "allowed"@,
        r is Forbidden <==> r.spec_short_name()@ == "forbidden"@,
        r is Error <==> r.spec_short_name()@ == "error"@,
        r is Allowed <==> r.spec_state()@ == "allow"@,
        r is Forbidden <==> r.spec_state()@ == "forbid"@,
        r is Error <==> r.spec_state()@ == "err"@,
{
    reveal_strlit("allowed");
    reveal_strlit("forbidden");
    reveal_strlit("error");
    reveal_strlit("allow");
    reveal_strlit("forbid");
    reveal_strlit("err");
    assert("allowed"@.len() == 7 && "forbidden"@.len() == 9 && "error"@.len() == 5);
    assert("allow"@.len() == 5 && "forbid"@.len() == 6 && "err"@.len() == 3);
}

/// The words that options take mean what they say, and options that are not
/// given have their defaults: nothing is removed, a path that reaches an
/// instruction too often is an error, and no graphs are drawn.
pub proof fn law_option_words(mode: Seq<char>)
    ensures
        options::removal(None) == Some(None::<bool>),
        options::removal(Some(mode)) == Some(Some(true)) <==> mode == "safe"@,
        options::removal(Some(mode)) == Some(Some(false)) <==> mode == "all"@,
        options::removal(Some(mode)) is None <==> mode != "safe"@ && mode != "all"@,
        options::limit_mode(None) == Some(PCLimitMode::Error),
        options::limit_mode(Some(mode)) == Some(PCLimitMode::Error) <==> mode == "error"@,
        options::limit_mode(Some(mode)) == Some(PCLimitMode::Discard) <==> mode == "discard"@,
        options::drawing(None) == Some(GraphMode::Disabled),
        options::drawing(Some(mode)) == Some(GraphMode::ASCII) <==> mode == "ascii"@,
        options::drawing(Some(mode)) == Some(GraphMode::Dot) <==> mode == "dot"@,
        options::drawing(Some(mode)) == Some(GraphMode::Disabled) <==> mode == "none"@,
{
    reveal_strlit("safe");
    reveal_strlit("all");
    reveal_strlit("error");
    reveal_strlit("discard");
    reveal_strlit("ascii");
    reveal_strlit("dot");
    reveal_strlit("none");
    assert("safe"@.len() == 4 && "all"@.len() == 3);
    assert("error"@.len() == 5 && "discard"@.len() == 7);
    assert("ascii"@.len() == 5 && "dot"@.len() == 3 && "none"@.len() == 4);
}

/// Each tool that turns litmus files into tests is called by its own name, and
/// is told of page tables in its own way, but only if they are asked for.
pub proof fn law_translators(t: Translator)
    ensures
        t.spec_default_path()@ == if t == Translator::IslaLitmus {
            "isla-litmus"@
        } else {
            "litmus-translator"@
        },
        t.spec_arguments(false).len() == 0,
        t.spec_arguments(true) == if t == Translator::IslaLitmus {
            seq!["--armv8-page-tables"@]
        } else {
            seq!["-variant"@, "VMSA"@]
        },
{
}

/// A text without a character has no place where it stands.
proof fn lemma_no_position(s: Seq<char>, c: char)
    requires
        !s.contains(c),
    ensures
        text::position(s, c) == s.len(),
{
    text::lemma_position(s, c);
    if text::position(s, c) < s.len() {
        assert(s[text::position(s, c) as int] == c);
    }
}

/// An equation has what stands before its equals sign as its left side, and
/// what stands behind it as its right side.
pub proof fn law_sides_of_equation(left: Seq<char>, right: Seq<char>)
    requires
        !left.contains('='),
        !right.contains('='),
    ensures
        options::sides(left + seq!['='] + right) == Some((left, right)),
        options::sides(left) is None,
{
    let whole = left + seq!['='] + right;
    text::lemma_position_is(whole, '=', left.len());
    lemma_no_position(right, '=');
    lemma_no_position(left, '=');
    assert(whole.take(left.len() as int) =~= left);
    assert(whole.skip(left.len() as int + 1) =~= right);
    assert(text::pieces(right, '=') == seq![right]);
    assert(text::pieces(whole, '=') =~= seq![left, right]);
    assert(text::pieces(left, '=') == seq![left]);
}

/// Pieces of text put together with a character between them.
pub open spec fn joined(pieces: Seq<Seq<char>>, c: char) -> Seq<char>
    decreases pieces.len(),
{
    if pieces.len() == 0 {
        seq![]
    } else if pieces.len() == 1 {
        pieces[0]
    } else {
        pieces[0] + seq![c] + joined(pieces.drop_first(), c)
    }
}

/// The pieces of a text between the places of a character, put together with
/// that character between them, are the text again; and the character stands
/// in none of them.
pub proof fn law_pieces_join(s: Seq<char>, c: char)
    ensures
        text::pieces(s, c).len() > 0,
        joined(text::pieces(s, c), c) == s,
        forall|i: int|
            0 <= i < text::pieces(s, c).len() ==> !(#[trigger] text::pieces(s, c)[i]).contains(c),
    decreases s.len(),
{
    text::lemma_position(s, c);
    let n = text::position(s, c);
    if n < s.len() {
        let rest = s.skip(n as int + 1);
        law_pieces_join(rest, c);
        let all = text::pieces(s, c);
        assert(all.drop_first() =~= text::pieces(rest, c));
        assert(s.take(n as int) + seq![c] + rest =~= s);
        assert forall|i: int| 0 <= i < all.len() implies !(#[trigger] all[i]).contains(c) by {
            if i > 0 {
                assert(all[i] == text::pieces(rest, c)[i - 1]);
            }
        }
    }
}

/// The sides of a list of equations are the sides of each of them, in order;
/// and there are none if one of them is not an equation.
pub proof fn law_all_sides(equations: Seq<Seq<char>>)
    ensures
        ({
            let r = options::all_sides(equations, 0, seq![]);
            &&& r is Some <==> forall|i: int|
                0 <= i < equations.len() ==> options::sides(#[trigger] equations[i]) is Some
            &&& r matches Some(all) ==> all.len() == equations.len() && forall|i: int|
                0 <= i < equations.len() ==> options::sides(#[trigger] equations[i]) == Some(all[i])
        }),
{
    lemma_all_sides(equations, 0, seq![]);
}

proof fn lemma_all_sides(equations: Seq<Seq<char>>, j: int, done: Seq<(Seq<char>, Seq<char>)>)
    requires
        0 <= j <= equations.len(),
        done.len() == j,
        forall|i: int| 0 <= i < j ==> options::sides(#[trigger] equations[i]) == Some(done[i]),
    ensures
        ({
            let r = options::all_sides(equations, j, done);
            &&& r is Some <==> forall|i: int|
                0 <= i < equations.len() ==> options::sides(#[trigger] equations[i]) is Some
            &&& r matches Some(all) ==> all.len() == equations.len() && forall|i: int|
                0 <= i < equations.len() ==> options::sides(#[trigger] equations[i]) == Some(all[i])
        }),
    decreases equations.len() - j,
{
    if j < equations.len() {
        if let Some(sides) = options::sides(equations[j]) {
            lemma_all_sides(equations, j + 1, done.push(sides));
        }
    }
}

/// The kind of an address is told by the start of its name.
pub proof fn law_kinds_of_names(name: Seq<char>)
    ensures
        names::kind_of(name) == NameKind::Physical <==> text::begins_with(name, "pa"@),
        names::kind_of(name) == NameKind::Intermediate <==> text::begins_with(name, "ipa"@),
        names::kind_of(name) == NameKind::Virtual <==> !text::begins_with(name, "pa"@)
            && !text::begins_with(name, "ipa"@),
{
    reveal_strlit("pa");
    reveal_strlit("ipa");
    assert("pa"@.len() == 2 && "ipa"@.len() == 3);
    assert("pa"@[0] != "ipa"@[0]);
    if text::begins_with(name, "pa"@) && text::begins_with(name, "ipa"@) {
        assert(name.take(2)[0] == "pa"@[0]);
        assert(name.take(3)[0] == "ipa"@[0]);
    }
}

/// There is a walk for each address through each table, in the order of the
/// tables and then of the addresses: with the address and the table that it
/// is for, at the first stage for the tables of the first stage.
pub proof fn law_walks(tables: Seq<NamedTable>, addrs: Seq<(String, u64)>, i: int, j: int)
    requires
        0 <= i < tables.len(),
        0 <= j < addrs.len(),
    ensures
        ({
            let walks = names::walks(tables, addrs);
            let walk = walks[i * addrs.len() + j];
            &&& walks.len() == tables.len() * addrs.len()
            &&& 0 <= i * addrs.len() + j < walks.len()
            &&& walk.va_name == addrs[j].0@ && walk.va == addrs[j].1
            &&& walk.table_name == tables[i].name@ && walk.base == tables[i].base
            &&& walk.stage_one <==> tables[i].kind@ == "stage 1"@
        }),
    decreases tables.len(),
{
    let n = addrs.len();
    let m = tables.len();
    lemma_walks_len(tables, addrs);
    assert(0 <= i * n && i * n + n <= m * n) by (nonlinear_arith)
        requires
            0 <= i < m,
    ;
    let rest = tables.drop_last();
    lemma_walks_len(rest, addrs);
    assert(m * n == (m - 1) * n + n) by (nonlinear_arith);
    if i < m - 1 {
        law_walks(rest, addrs, i, j);
        assert(i * n + n <= (m - 1) * n) by (nonlinear_arith)
            requires
                0 <= i < m - 1,
        ;
    }
}

proof fn lemma_walks_len(tables: Seq<NamedTable>, addrs: Seq<(String, u64)>)
    ensures
        names::walks(tables, addrs).len() == tables.len() * addrs.len(),
    decreases tables.len(),
{
    if tables.len() > 0 {
        lemma_walks_len(tables.drop_last(), addrs);
        let m = tables.len();
        let n = addrs.len();
        assert(m * n == (m - 1) * n + n) by (nonlinear_arith);
    } else {
        assert(0 * addrs.len() == 0);
    }
}

/// A page has the name of its address in brackets, and the number that the
/// address has without its low twelve bits.
pub proof fn law_pages_of_addresses(name: Seq<char>, a: u64, b: u64)
    ensures
        names::page_name(name) == "page("@ + name + ")"@,
        a as int / 4096 == b as int / 4096 ==> names::page_bits(a) == names::page_bits(b),
        names::address_bits(a) == names::address_bits(b) <==> a == b,
{
    crate::bv::lemma_to_nat_from_int(64, a as int);
    crate::bv::lemma_to_nat_from_int(64, b as int);
    vstd::arithmetic::power2::lemma2_to64_rest();
    vstd::arithmetic::div_mod::lemma_small_mod(a as nat, vstd::arithmetic::power2::pow2(64));
    vstd::arithmetic::div_mod::lemma_small_mod(b as nat, vstd::arithmetic::power2::pow2(64));
}

/// A path is that of a test if it ends as tests do. In a file that names
/// tests, a name that begins with an at sign is that of another such file,
/// whatever its ending; else it is that of a test or of nothing.
pub proof fn law_lines_of_at_file(p: PathLine)
    ensures
        at_file::is_test(p.extension) <==> (p.extension matches Some(s) && (s@ == "litmus"@ || s@
            == "toml"@)),
        ({
            let named = p.extension is Some && p.file_name is Some;
            let at = named && text::begins_with(p.file_name->0@, "@"@);
            &&& at_file::at_line(p) == Some(AtLine::AtFile) <==> at
            &&& at_file::at_line(p) == Some(AtLine::Test) <==> named && !at && at_file::is_test(
                p.extension,
            )
            &&& at_file::at_line(p) == Some(AtLine::Nothing) <==> named && !at && !at_file::is_test(
                p.extension,
            ) && p.line@.len() == 0
        }),
        at_file::is_skipped(p.line@) <==> p.line@.len() == 0 || p.line@[0] == '#',
{
    reveal_strlit("#");
    assert("#"@.len() == 1 && "#"@[0] == '#');
    if p.line@.len() > 0 {
        if p.line@[0] == '#' {
            assert(p.line@.take(1) =~= "#"@);
        } else {
            assert(p.line@.take(1)[0] == p.line@[0]);
        }
    }
}

/// One more line of a file that names tests is left out, or adds a step with
/// its number, or ends the file with an error that names it.
pub proof fn law_at_file_goes_on(lines: Seq<PathLine>, p: PathLine)
    ensures
        ({
            let before = at_file::at_plan(lines, 0, seq![]);
            let after = at_file::at_plan(lines.push(p), 0, seq![]);
            let n = lines.len() as usize;
            &&& before.bad is Some ==> after == before
            &&& before.bad is None && at_file::is_skipped(p.line@) ==> after == before
            &&& before.bad is None && !at_file::is_skipped(p.line@) ==> match at_file::at_line(p) {
                Some(step) => after.bad is None && after.steps == before.steps.push((n, step)),
                None => after.bad == Some((n, p.line@)) && after.steps == before.steps,
            }
        }),
{
    lemma_at_plan(lines, p, 0, seq![]);
    reveal_with_fuel(at_file::at_plan, 3);
    assert(lines.push(p)[lines.len() as int] == p);
}

proof fn lemma_at_plan(lines: Seq<PathLine>, p: PathLine, i: int, steps: Seq<(usize, AtLine)>)
    requires
        0 <= i <= lines.len(),
    ensures
        ({
            let before = at_file::at_plan(lines, i, steps);
            let after = at_file::at_plan(lines.push(p), i, steps);
            &&& before.bad is Some ==> after == before
            &&& before.bad is None ==> after == at_file::at_plan(
                lines.push(p),
                lines.len() as int,
                before.steps,
            )
        }),
    decreases lines.len() - i,
{
    if i < lines.len() {
        assert(lines.push(p)[i] == lines[i]);
        if at_file::is_skipped(lines[i].line@) {
            lemma_at_plan(lines, p, i + 1, steps);
        } else if let Some(step) = at_file::at_line(lines[i]) {
            lemma_at_plan(lines, p, i + 1, steps.push((i as usize, step)));
        }
    }
}

/// The value of a hexadecimal digit.
pub open spec fn hex_value(c: char) -> int {
    if '0' <= c <= '9' {
        c as int - '0' as int
    } else {
        c as int - 'a' as int + 10
    }
}

/// Bytes in hexadecimal have two digits each, the higher one first, from which
/// the byte can be read.
pub proof fn law_hex_digits(bytes: Seq<u8>, i: int)
    requires
        0 <= i < bytes.len(),
    ensures
        hash::hex(bytes).len() == 2 * bytes.len(),
        16 * hex_value(hash::hex(bytes)[2 * i]) + hex_value(hash::hex(bytes)[2 * i + 1])
            == bytes[i],
    decreases bytes.len(),
{
    reveal_strlit("0123456789abcdef");
    assert(forall|d: int| 0 <= d < 16 ==> hex_value(#[trigger] hash::hex_digit(d)) == d);
    lemma_hex_len(bytes);
    lemma_hex_len(bytes.drop_last());
    if i < bytes.len() - 1 {
        law_hex_digits(bytes.drop_last(), i);
    }
}

proof fn lemma_hex_len(bytes: Seq<u8>)
    ensures
        hash::hex(bytes).len() == 2 * bytes.len(),
    decreases bytes.len(),
{
    if bytes.len() > 0 {
        lemma_hex_len(bytes.drop_last());
    }
}

} // verus!
