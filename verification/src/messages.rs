//! What is said to the user.

use crate::axiomatic::options::{self, DotPlace};
use crate::axiomatic::refs::RefsErrorView;
use crate::axiomatic::report::{self, Verdict};
use crate::axiomatic::result::{self, AxResult};
use crate::executor::error::TypeError;
use crate::executor::ir::{Loc, Val as ExecVal};
use crate::executor::names::Name;
use crate::page_table::setup::{self, Conversion, EvalErrorView, Val};
use crate::page_table::VirtualAddress;
use crate::smt::smtlib::Sym;
use crate::text;
use vstd::prelude::*;

verus! {

/// What is wrong with a file of references is said together with the text
/// that is wrong.
pub proof fn law_reference_messages(s: Seq<char>)
    ensures
        RefsErrorView::BadTestLine(s).text() == "Expected test name on line: "@ + s,
        RefsErrorView::BadExpected(s).text() == "Expected `Allowed` or `Forbidden` got: "@ + s,
        RefsErrorView::BadStatesLine(s).text() == "Expected a line containing `States <n>`: "@ + s,
        RefsErrorView::BadResultLine(s).text()
            == "Expected a line starting with either `Ok or No`: "@ + s,
        RefsErrorView::UnexpectedEof.text() == "Unexpected end-of-file"@,
{
}

/// What is wrong with a setup is said together with the name or the reason
/// that the error holds.
pub proof fn law_setup_messages(s: Seq<char>)
    ensures
        EvalErrorView::VariableNotFound(s).text() == "Variable not found: "@ + s,
        EvalErrorView::FunctionNotFound(s).text() == "Function not found: "@ + s,
        EvalErrorView::MappingFailure.text() == "Could not create page table mapping"@,
        EvalErrorView::Type(s).text() == s,
        EvalErrorView::WalkError(s).text() == "Error while walking translation table: "@ + s,
        EvalErrorView::AddressError(s).text() == "Error while generating addresses: "@ + s,
{
}

/// A value is shown as its kind with its number in decimal.
pub proof fn law_shown_values(bits: u64, n: i128)
    ensures
        setup::shown(Val::VA(VirtualAddress { bits })) == "VA(VirtualAddress { bits: "@
            + text::decimal(bits as nat) + " })"@,
        setup::shown(Val::IPA(VirtualAddress { bits })) == "IPA(VirtualAddress { bits: "@
            + text::decimal(bits as nat) + " })"@,
        setup::shown(Val::PA(bits)) == "PA("@ + text::decimal(bits as nat) + ")"@,
        setup::shown(Val::I128(n)) == "I128("@ + text::signed_decimal(n as int) + ")"@,
        setup::shown(Val::Invalid) == "Invalid"@,
{
}

/// Whether a conversion is one of virtual, of intermediate or of physical
/// addresses.
pub open spec fn takes(f: Conversion, v: Val) -> bool {
    f.spec_convert(v) is Some
}

/// A conversion that gets something else than it takes says what it expects:
/// under its own name, an address of the kind that it takes.
pub proof fn law_conversion_messages(f: Conversion, va: VirtualAddress, pa: u64)
    ensures
        takes(f, Val::VA(va)) ==> f.spec_expectation()@ =~= f.spec_name()@
            + " expects a virtual address argument"@,
        takes(f, Val::IPA(va)) ==> f.spec_expectation()@ =~= f.spec_name()@
            + " expects an intermediate physical address argument"@,
        takes(f, Val::PA(pa)) ==> f.spec_expectation()@ =~= f.spec_name()@
            + " expects a physical address argument"@,
{
    reveal_strlit(" expects a virtual address argument");
    reveal_strlit(" expects an intermediate physical address argument");
    reveal_strlit(" expects a physical address argument");
    reveal_strlit("va_to_pa");
    reveal_strlit("pa_to_va");
    reveal_strlit("ipa_to_va");
    reveal_strlit("va_to_ipa");
    reveal_strlit("pa_to_ipa");
    reveal_strlit("ipa_to_pa");
    reveal_strlit("va_to_pa expects a virtual address argument");
    reveal_strlit("pa_to_va expects a physical address argument");
    reveal_strlit("ipa_to_va expects an intermediate physical address argument");
    reveal_strlit("va_to_ipa expects a virtual address argument");
    reveal_strlit("pa_to_ipa expects a physical address argument");
    reveal_strlit("ipa_to_pa expects an intermediate physical address argument");
}

/// A verdict is printed as a word of its own, in bold and in a colour of its
/// own.
pub proof fn law_verdict_texts()
    ensures
        Verdict::Pass.spec_text()@ == "\x1b[92m\x1b[1mok\x1b[0m"@,
        Verdict::Error.spec_text()@ == "\x1b[95m\x1b[1merror\x1b[0m"@,
        Verdict::Fail.spec_text()@ == "\x1b[91m\x1b[1mfail\x1b[0m"@,
        Verdict::Unknown.spec_text()@ == "\x1b[93m\x1b[1m?\x1b[0m"@,
{
}

/// The summary of a test gives its name, the overall result, how many of how
/// many results are allowed, the reference if there is one, and the time.
pub proof fn law_summary(
    name: Seq<char>,
    millis: u128,
    results: Seq<AxResult>,
    reference: AxResult,
)
    requires
        results.len() > 0,
    ensures
        ({
            let got = results[report::overall(results)];
            let count = results.filter(|r: AxResult| r is Allowed).len();
            let time = text::decimal(millis as nat) + "ms "@;
            let start = name + " "@ + got.spec_short_name()@ + " ("@ + text::decimal(count)
                + " of "@ + text::decimal(results.len()) + ") "@;
            &&& report::summary(name, millis, results, None) == start + time
            &&& report::summary(name, millis, results, Some(reference)) == start + "reference: "@
                + reference.spec_short_name()@ + " "@ + time
        }),
{
    crate::axiomatic::laws::law_allowed_are_counted(results);
    let got = results[report::overall(results)];
    let count = report::allowed(results, results.len());
    let start = name + " "@ + got.spec_short_name()@ + " ("@ + text::decimal(count) + " of "@
        + text::decimal(results.len()) + ") "@;
    let time = text::decimal(millis as nat) + "ms "@;
    assert(report::summary(name, millis, results, None) =~= start + time);
    assert(report::summary(name, millis, results, Some(reference)) =~= start + "reference: "@
        + reference.spec_short_name()@ + " "@ + time);
}

/// Of the output of the solver no more than the first fifteen bytes are shown,
/// and all of it if it is no longer.
pub proof fn law_head(output: &str)
    ensures
        report::head_len(output) <= 15,
        report::head_len(output) <= output.len(),
        report::head_len(output) == 15 || report::head_len(output) == output.len(),
{
}

/// The opposite of a result: only what is allowed becomes forbidden, and what
/// is forbidden or could not be decided becomes allowed. No graph is kept.
pub proof fn law_negation_of_results(r: AxResult)
    ensures
        result::negated(r) is Forbidden <==> r is Allowed,
        result::negated(r) is Allowed <==> !(r is Allowed),
        result::negated(r).spec_graph() is None,
{
}

/// A mode that is not known is refused with the mode and with those that are.
pub proof fn law_removal_message(mode: Seq<char>)
    ensures
        options::removal_message(mode) == "Invalid option for --remove-uninteresting flag: "@ + mode
            + ". Must be either 'all' or 'safe'"@,
{
}

/// What is said of errors in the types of a program.
pub proof fn law_type_messages(v: ExecVal, loc: Loc, name: Name, sym: Sym, s: String)
    ensures
        TypeError::ReadVectorRegisters.spec_message()@
            == "read_register_from_vector must be given a vector of register references"@,
        TypeError::ReadVectorIndex.spec_message()@ == "read_register_from_vector invalid index"@,
        TypeError::ReadVectorIndexLength.spec_message()@
            == "read_register_from_vector could not determine length of index bitvector"@,
        TypeError::ReadVectorIndexType.spec_message()@
            == "read_register_from_vector index type must be a bitvector"@,
        TypeError::WriteVectorRegisters.spec_message()@
            == "write_register_from_vector must be given a vector of register references"@,
        TypeError::WriteVectorIndex.spec_message()@ == "write_register_from_vector invalid index"@,
        TypeError::WriteVectorIndexLength.spec_message()@
            == "write_register_from_vector could not determine length of index bitvector"@,
        TypeError::WriteVectorIndexType.spec_message()@
            == "write_register_from_vector index type must be a bitvector"@,
        TypeError::KindCheck(v).spec_message()@ == "Kind check on non-constructor"@,
        TypeError::NoPossibleValue.spec_message()@ == "No possible value for constructor"@,
        TypeError::Unwrap(v).spec_message()@
            == "Tried to unwrap non-constructor, or constructors didn't match"@,
        TypeError::VectorInit(loc).spec_message()@ == "internal_vector_init"@,
        TypeError::ItePhi.spec_message()@ == "ite_phi"@,
        TypeError::RegDeref(name).spec_message()@ == "reg_deref"@,
        TypeError::RegDerefNotRegister(name).spec_message()@ == "reg_deref (not a register)"@,
        TypeError::ProgramCounter.spec_message()@
            == "Program counter contains non-bitvector or symbolic value"@,
        TypeError::JumpOnNonBoolean(v).spec_message()@ == "Jump on non boolean"@,
        TypeError::Monomorphize(sym).spec_message()@ == "_monomorphize"@,
        TypeError::MonomorphizeModel(s).spec_message()@ == "__monomorphize"@,
        TypeError::KindCheck(v).holds_something() && TypeError::Unwrap(v).holds_something(),
        TypeError::VectorInit(loc).holds_something(),
        TypeError::RegDeref(name).holds_something(),
        TypeError::RegDerefNotRegister(name).holds_something(),
        TypeError::JumpOnNonBoolean(v).holds_something(),
        TypeError::Monomorphize(sym).holds_something(),
        TypeError::MonomorphizeModel(s).holds_something(),
        !TypeError::ItePhi.holds_something() && !TypeError::ProgramCounter.holds_something(),
        !TypeError::ReadVectorIndex.holds_something(),
        !TypeError::WriteVectorIndex.holds_something(),
{
}

/// Translations are merged if that is asked for, by stage if that is asked for
/// as well.
pub proof fn law_merging(merge: bool, split_stages: bool)
    ensures
        options::merging(merge, split_stages) is Some <==> merge,
        options::merging(merge, split_stages) matches Some(by_stage) ==> by_stage == split_stages,
{
}

/// Graphs go to the directory that is given if one is, and else to one for
/// temporary files if they are wanted there or are to be viewed. If none of
/// these holds, they go nowhere.
pub proof fn law_placing(dot_given: bool, temp_dot: bool, view: bool)
    ensures
        options::placing(dot_given, temp_dot, view) == DotPlace::Given <==> dot_given,
        options::placing(dot_given, temp_dot, view) == DotPlace::Nowhere <==> !dot_given && !temp_dot
            && !view,
{
}

/// If no group is singled out all groups run, and else that one and no other.
pub proof fn law_groups_that_run(group_id: usize, only: usize)
    ensures
        options::runs(group_id, None),
        options::runs(only, Some(only)),
        options::runs(group_id, Some(only)) ==> group_id == only,
{
}

/// Whether a text is a number between a start and an end.
pub open spec fn numbered(s: Seq<char>, start: Seq<char>, n: usize, end: Seq<char>) -> bool {
    &&& s.len() >= start.len() + end.len()
    &&& s.take(start.len() as int) == start
    &&& s.skip(s.len() - end.len()) == end
    &&& text::unsigned(s.subrange(start.len() as int, s.len() - end.len())) == Some(n)
}

proof fn lemma_numbered(start: Seq<char>, n: usize, end: Seq<char>)
    ensures
        numbered(start + text::decimal(n as nat) + end, start, n, end),
{
    let s = start + text::decimal(n as nat) + end;
    assert(s.take(start.len() as int) =~= start);
    assert(s.skip(s.len() - end.len()) =~= end);
    assert(s.subrange(start.len() as int, s.len() - end.len()) =~= text::decimal(n as nat));
    crate::numbers::law_decimal_is_read_back(n);
}

/// The names of the files for executions tell the test, the state where it
/// belongs to the name, and the number of the execution, which is one for the
/// first.
pub proof fn law_file_names(test: Seq<char>, state: Seq<char>, i: usize)
    requires
        i < usize::MAX,
    ensures
        numbered(
            options::dot_name(test, state, i),
            test + seq!['_'] + state + seq!['_'],
            (i + 1) as usize,
            ".dot"@,
        ),
        numbered(options::png_name(test, i), test + seq!['_'], (i + 1) as usize, ".png"@),
{
    reveal_strlit("_");
    assert("_"@ =~= seq!['_']);
    lemma_numbered(test + seq!['_'] + state + seq!['_'], (i + 1) as usize, ".dot"@);
    lemma_numbered(test + seq!['_'], (i + 1) as usize, ".png"@);
}

/// The heading of an execution tells its number, which is one for the first,
/// of how many, and its state. The name of a job tells its group and its
/// number.
pub proof fn law_headings(i: usize, total: usize, state: Seq<char>, group_id: usize)
    requires
        i < usize::MAX,
    ensures
        numbered(
            options::heading(i, total, state),
            "Candidate "@,
            (i + 1) as usize,
            "/"@ + text::decimal(total as nat) + " ("@ + state + "):"@,
        ),
        numbered(options::job(group_id, i), "g"@, group_id, "t"@ + text::decimal(i as nat)),
{
    let rest = "/"@ + text::decimal(total as nat) + " ("@ + state + "):"@;
    lemma_numbered("Candidate "@, (i + 1) as usize, rest);
    assert(options::heading(i, total, state) =~= "Candidate "@ + text::decimal((i + 1) as nat)
        + rest);
    let last = "t"@ + text::decimal(i as nat);
    lemma_numbered("g"@, group_id, last);
    assert(options::job(group_id, i) =~= "g"@ + text::decimal(group_id as nat) + last);
}

/// A test fails exactly if it has a reference and its result is not of the
/// same kind.
pub proof fn law_failures(got: AxResult, expected: Option<AxResult>)
    ensures
        report::is_failure(report::verdict(got, expected)) <==> (expected matches Some(reference)
            && !(got is Allowed && reference is Allowed) && !(got is Forbidden && reference
            is Forbidden) && !(got is Error && reference is Error)),
{
}

} // verus!
