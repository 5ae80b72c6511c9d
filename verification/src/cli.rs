//! The command line: reading the arguments and the texts it prints.

use crate::convert::{ConversionProgress, ConversionStats};
use crate::text::{
    all_digits, decimal, digits_value, is_ascii_digit, lemma_decimal_reads_back, numeral_digits,
    parse_u32, push_decimal, same_text, spec_parse_u32,
};
use vstd::prelude::*;
use vstd::string::StringExecFns;

verus! {

/// What the command line asks for.
#[derive(Debug, PartialEq, Eq)]
pub enum CliRequest {
    /// Print the usage text.
    Help,
    /// Convert `input` into `output`, keeping puzzles rated `minimum_rating` or more.
    Convert { input: String, output: String, minimum_rating: u32 },
}

/// What the command line asks for, as text.
pub enum SpecCliRequest {
    Help,
    Convert { input: Seq<char>, output: Seq<char>, minimum_rating: u32 },
}

impl View for CliRequest {
    type V = SpecCliRequest;

    open spec fn view(&self) -> SpecCliRequest {
        match self {
            CliRequest::Help => SpecCliRequest::Help,
            CliRequest::Convert { input, output, minimum_rating } => SpecCliRequest::Convert {
                input: input@,
                output: output@,
                minimum_rating: *minimum_rating,
            },
        }
    }
}

/// The usage text of the command line tool.
pub open spec fn usage_text() -> Seq<char> {
    "Usage:\n  lichess-puzzle-csv-to-pgn-cli --input PUZZLES.csv --output FILTERED.pgn --min-rating 1500\n\nThe minimum rating is inclusive. The input must be an unpacked Lichess puzzle CSV."@
}

/// The usage text of the command line tool.
pub fn usage() -> (u: &'static str)
    ensures
        u@ == usage_text(),
{
    "Usage:\n  lichess-puzzle-csv-to-pgn-cli --input PUZZLES.csv --output FILTERED.pgn --min-rating 1500\n\nThe minimum rating is inclusive. The input must be an unpacked Lichess puzzle CSV."
}

/// The message when `option` is the last argument.
pub open spec fn missing_value_text(option: Seq<char>) -> Seq<char> {
    option + " requires a value"@
}

/// The value that follows an option: the argument at `index`, or the
/// message that `option` requires a value.
pub fn next_value(arguments: &Vec<String>, index: usize, option: &str) -> (r: Result<String, String>)
    ensures
        index < arguments.len() ==> r is Ok && r->Ok_0@ == arguments[index as int]@,
        index >= arguments.len() ==> r is Err && r->Err_0@ == missing_value_text(option@),
{
    if index < arguments.len() {
        Ok(arguments[index].clone())
    } else {
        let mut message = String::from_str(option);
        message.append(" requires a value");
        Err(message)
    }
}

/// What the arguments from position `i` on ask for, when the options before
/// them set `input`, `output` and `minimum`: options are read left to right,
/// a later option overriding an earlier one, and `-h`/`--help` asks for the
/// usage text at once.
pub open spec fn spec_arguments_from(
    args: Seq<Seq<char>>,
    i: int,
    input: Option<Seq<char>>,
    output: Option<Seq<char>>,
    minimum: Option<u32>,
) -> Result<SpecCliRequest, Seq<char>>
    decreases args.len() - i,
{
    if i < 0 || i >= args.len() {
        if input is None {
            Err("--input is required"@)
        } else if output is None {
            Err("--output is required"@)
        } else if minimum is None {
            Err("--min-rating is required"@)
        } else {
            Ok(
                SpecCliRequest::Convert {
                    input: input->0,
                    output: output->0,
                    minimum_rating: minimum->0,
                },
            )
        }
    } else {
        let a = args[i];
        if a == "-h"@ || a == "--help"@ {
            Ok(SpecCliRequest::Help)
        } else if a == "-i"@ || a == "--input"@ {
            if i + 1 < args.len() {
                spec_arguments_from(args, i + 2, Some(args[i + 1]), output, minimum)
            } else {
                Err(missing_value_text("--input"@))
            }
        } else if a == "-o"@ || a == "--output"@ {
            if i + 1 < args.len() {
                spec_arguments_from(args, i + 2, input, Some(args[i + 1]), minimum)
            } else {
                Err(missing_value_text("--output"@))
            }
        } else if a == "-m"@ || a == "--min-rating"@ {
            if i + 1 < args.len() {
                match spec_parse_u32(args[i + 1]) {
                    Some(value) => spec_arguments_from(args, i + 2, input, output, Some(value)),
                    None => Err("--min-rating must be a non-negative whole number"@),
                }
            } else {
                Err(missing_value_text("--min-rating"@))
            }
        } else {
            Err("unrecognized argument `"@ + a + "`"@)
        }
    }
}

/// What the arguments `args` (without the program name) ask for, or the
/// message of the first problem with them.
pub open spec fn spec_arguments(args: Seq<Seq<char>>) -> Result<SpecCliRequest, Seq<char>> {
    spec_arguments_from(args, 0, None, None, None)
}

/// Reads the command line arguments `arguments` (without the program name).
pub fn parse_arguments(arguments: &Vec<String>) -> (r: Result<CliRequest, String>)
    ensures
        r is Ok ==> spec_arguments(arguments.deep_view()) == Ok::<SpecCliRequest, Seq<char>>(
            r->Ok_0@,
        ),
        r is Err ==> spec_arguments(arguments.deep_view()) == Err::<SpecCliRequest, Seq<char>>(
            r->Err_0@,
        ),
{
    let ghost args = arguments.deep_view();
    let mut input: Option<String> = None;
    let mut output: Option<String> = None;
    let mut minimum: Option<u32> = None;
    let mut i: usize = 0;
    while i < arguments.len()
        invariant
            args == arguments.deep_view(),
            i <= arguments.len(),
            spec_arguments(args) == spec_arguments_from(
                args,
                i as int,
                match input {
                    Some(s) => Some(s@),
                    None => None,
                },
                match output {
                    Some(s) => Some(s@),
                    None => None,
                },
                minimum,
            ),
        decreases arguments.len() - i,
    {
        let argument = arguments[i].as_str();
        assert(args[i as int] == argument@);
        if same_text(argument, "-h") || same_text(argument, "--help") {
            return Ok(CliRequest::Help);
        } else if same_text(argument, "-i") || same_text(argument, "--input") {
            match next_value(arguments, i + 1, "--input") {
                Ok(value) => {
                    assert(args[i + 1] == value@);
                    input = Some(value);
                },
                Err(message) => return Err(message),
            }
            i = i + 2;
        } else if same_text(argument, "-o") || same_text(argument, "--output") {
            match next_value(arguments, i + 1, "--output") {
                Ok(value) => {
                    assert(args[i + 1] == value@);
                    output = Some(value);
                },
                Err(message) => return Err(message),
            }
            i = i + 2;
        } else if same_text(argument, "-m") || same_text(argument, "--min-rating") {
            let raw = match next_value(arguments, i + 1, "--min-rating") {
                Ok(value) => value,
                Err(message) => return Err(message),
            };
            assert(args[i + 1] == raw@);
            match parse_u32(raw.as_str()) {
                Some(value) => minimum = Some(value),
                None => return Err(String::from_str("--min-rating must be a non-negative whole number")),
            }
            i = i + 2;
        } else {
            let mut message = String::from_str("unrecognized argument `");
            message.append(argument);
            message.append("`");
            return Err(message);
        }
    }
    match (input, output, minimum) {
        (None, _, _) => Err(String::from_str("--input is required")),
        (_, None, _) => Err(String::from_str("--output is required")),
        (_, _, None) => Err(String::from_str("--min-rating is required")),
        (Some(input), Some(output), Some(minimum_rating)) => Ok(
            CliRequest::Convert { input, output, minimum_rating },
        ),
    }
}

} // verus!

verus! {

/// The line reporting progress: `Read {rows} rows; wrote {puzzles} puzzles…`.
pub open spec fn progress_text(p: ConversionProgress) -> Seq<char> {
    "Read "@ + decimal(p.records_read as nat) + " rows; wrote "@ + decimal(
        p.puzzles_written as nat,
    ) + " puzzles…"@
}

/// The progress line to print, if any: none before a row has been read.
pub fn progress_line(progress: ConversionProgress) -> (line: Option<String>)
    ensures
        progress.records_read == 0 ==> line is None,
        progress.records_read > 0 ==> line is Some && line->0@ == progress_text(progress),
{
    if progress.records_read == 0 {
        return None;
    }
    let mut line = String::from_str("Read ");
    push_decimal(&mut line, progress.records_read);
    line.append(" rows; wrote ");
    push_decimal(&mut line, progress.puzzles_written);
    line.append(" puzzles…");
    Some(line)
}

/// The closing summary of a conversion into `output`.
pub open spec fn finished_text(stats: ConversionStats, output: Seq<char>) -> Seq<char> {
    "Finished: wrote "@ + decimal(stats.puzzles_written as nat) + " puzzles from "@ + decimal(
        stats.records_read as nat,
    ) + " rows ("@ + decimal(stats.skipped_by_rating as nat) + " below the minimum rating) to "@
        + output + "."@
}

/// The closing summary of a conversion into `output`.
pub fn finished_line(stats: ConversionStats, output: &str) -> (line: String)
    ensures
        line@ == finished_text(stats, output@),
{
    let mut line = String::from_str("Finished: wrote ");
    push_decimal(&mut line, stats.puzzles_written);
    line.append(" puzzles from ");
    push_decimal(&mut line, stats.records_read);
    line.append(" rows (");
    push_decimal(&mut line, stats.skipped_by_rating);
    line.append(" below the minimum rating) to ");
    line.append(output);
    line.append(".");
    line
}

/// The report of a failure: `Error: {message}`, a blank line and the usage text.
pub fn error_report(message: &str) -> (report: String)
    ensures
        report@ == "Error: "@ + message@ + "\n\n"@ + usage_text(),
{
    let mut report = String::from_str("Error: ");
    report.append(message);
    report.append("\n\n");
    report.append(usage());
    report
}

} // verus!

verus! {

/// The closing summary names, in this order, the puzzles written, the rows
/// read and the rows skipped for their rating, whatever their size, then the
/// output: each count is a run of ASCII digits that reads back as it.
pub proof fn lemma_finished_line_reports_the_counts(stats: ConversionStats, output: Seq<char>)
    ensures
        finished_text(stats, output) == "Finished: wrote "@ + decimal(stats.puzzles_written as nat)
            + " puzzles from "@ + decimal(stats.records_read as nat) + " rows ("@ + decimal(
            stats.skipped_by_rating as nat,
        ) + " below the minimum rating) to "@ + output + "."@,
        digits_value(decimal(stats.puzzles_written as nat)) == stats.puzzles_written,
        digits_value(decimal(stats.records_read as nat)) == stats.records_read,
        digits_value(decimal(stats.skipped_by_rating as nat)) == stats.skipped_by_rating,
        all_digits(decimal(stats.puzzles_written as nat)),
        all_digits(decimal(stats.records_read as nat)),
        all_digits(decimal(stats.skipped_by_rating as nat)),
{
    lemma_decimal_reads_back(stats.puzzles_written as nat);
    lemma_decimal_reads_back(stats.records_read as nat);
    lemma_decimal_reads_back(stats.skipped_by_rating as nat);
}

/// The progress line names the rows read, then the puzzles written.
pub proof fn lemma_progress_line_reports_the_counts(p: ConversionProgress)
    ensures
        progress_text(p) == "Read "@ + decimal(p.records_read as nat) + " rows; wrote "@ + decimal(
            p.puzzles_written as nat,
        ) + " puzzles…"@,
        digits_value(decimal(p.records_read as nat)) == p.records_read,
        digits_value(decimal(p.puzzles_written as nat)) == p.puzzles_written,
{
    lemma_decimal_reads_back(p.records_read as nat);
    lemma_decimal_reads_back(p.puzzles_written as nat);
}

} // verus!

verus! {

/// `a` names the input option, in its short or long spelling.
pub open spec fn is_input_option(a: Seq<char>) -> bool {
    a == "-i"@ || a == "--input"@
}

/// `a` names the output option, in its short or long spelling.
pub open spec fn is_output_option(a: Seq<char>) -> bool {
    a == "-o"@ || a == "--output"@
}

/// `a` names the minimum rating option, in its short or long spelling.
pub open spec fn is_minimum_option(a: Seq<char>) -> bool {
    a == "-m"@ || a == "--min-rating"@
}

/// `args` is a list of option and value pairs: every even position holds
/// one of the three options, and every minimum rating is a `u32` numeral.
#[verifier::opaque]
pub open spec fn option_pairs(args: Seq<Seq<char>>) -> bool {
    &&& args.len() % 2 == 0
    &&& forall|j: int|
        0 <= j < args.len() && j % 2 == 0 ==> is_input_option(#[trigger] args[j])
            || is_output_option(args[j]) || is_minimum_option(args[j])
    &&& forall|j: int|
        0 <= j < args.len() && j % 2 == 0 && is_minimum_option(#[trigger] args[j])
            ==> spec_parse_u32(args[j + 1]) is Some
}

/// In the option pairs `args`, position `k` holds the last occurrence of the
/// option spelt `short` or `long`.
#[verifier::opaque]
pub open spec fn last_option_at(args: Seq<Seq<char>>, k: int, short: Seq<char>, long: Seq<char>) -> bool {
    &&& 0 <= k < args.len()
    &&& k % 2 == 0
    &&& (args[k] == short || args[k] == long)
    &&& forall|j: int|
        k < j < args.len() && j % 2 == 0 ==> #[trigger] args[j] != short && args[j] != long
}

proof fn lemma_option_spellings_differ(a: Seq<char>)
    ensures
        is_input_option(a) ==> !(a == "-h"@ || a == "--help"@),
        is_output_option(a) ==> !(a == "-h"@ || a == "--help"@) && !is_input_option(a),
        is_minimum_option(a) ==> !(a == "-h"@ || a == "--help"@) && !is_input_option(a)
            && !is_output_option(a),
{
    reveal_strlit("-h");
    reveal_strlit("--help");
    reveal_strlit("-i");
    reveal_strlit("--input");
    reveal_strlit("-o");
    reveal_strlit("--output");
    reveal_strlit("-m");
    reveal_strlit("--min-rating");
    if is_input_option(a) || is_output_option(a) || is_minimum_option(a) {
        if a.len() == 2 {
            assert(a[1] != 'h');
        } else {
            assert(a[2] != "--help"@[2]);
        }
        if is_output_option(a) || is_minimum_option(a) {
            if a.len() == 2 {
                assert(a[1] != 'i');
            } else {
                assert(a[2] != 'i');
            }
        }
        if is_minimum_option(a) {
            if a.len() == 2 {
                assert(a[1] != 'o');
            } else {
                assert(a[2] != 'o');
            }
        }
    }
}

proof fn lemma_input_step(
    args: Seq<Seq<char>>,
    i: int,
    input: Option<Seq<char>>,
    output: Option<Seq<char>>,
    minimum: Option<u32>,
)
    requires
        0 <= i,
        i + 1 < args.len(),
        is_input_option(args[i]),
    ensures
        spec_arguments_from(args, i, input, output, minimum) == spec_arguments_from(
            args,
            i + 2,
            Some(args[i + 1]),
            output,
            minimum,
        ),
{
    lemma_option_spellings_differ(args[i]);
}

proof fn lemma_output_step(
    args: Seq<Seq<char>>,
    i: int,
    input: Option<Seq<char>>,
    output: Option<Seq<char>>,
    minimum: Option<u32>,
)
    requires
        0 <= i,
        i + 1 < args.len(),
        is_output_option(args[i]),
    ensures
        spec_arguments_from(args, i, input, output, minimum) == spec_arguments_from(
            args,
            i + 2,
            input,
            Some(args[i + 1]),
            minimum,
        ),
{
    lemma_option_spellings_differ(args[i]);
}

proof fn lemma_minimum_step(
    args: Seq<Seq<char>>,
    i: int,
    input: Option<Seq<char>>,
    output: Option<Seq<char>>,
    minimum: Option<u32>,
)
    requires
        0 <= i,
        i + 1 < args.len(),
        is_minimum_option(args[i]),
        spec_parse_u32(args[i + 1]) is Some,
    ensures
        spec_arguments_from(args, i, input, output, minimum) == spec_arguments_from(
            args,
            i + 2,
            input,
            output,
            spec_parse_u32(args[i + 1]),
        ),
{
    lemma_option_spellings_differ(args[i]);
}

proof fn lemma_end_step(
    args: Seq<Seq<char>>,
    input: Seq<char>,
    output: Seq<char>,
    minimum: u32,
)
    ensures
        spec_arguments_from(args, args.len() as int, Some(input), Some(output), Some(minimum))
            == Ok::<SpecCliRequest, Seq<char>>(
            SpecCliRequest::Convert { input, output, minimum_rating: minimum },
        ),
{
}

proof fn lemma_pair_at(args: Seq<Seq<char>>, i: int)
    requires
        option_pairs(args),
        0 <= i < args.len(),
        i % 2 == 0,
    ensures
        i + 1 < args.len(),
        is_input_option(args[i]) || is_output_option(args[i]) || is_minimum_option(args[i]),
        is_minimum_option(args[i]) ==> spec_parse_u32(args[i + 1]) is Some,
{
    reveal(option_pairs);
}

proof fn lemma_last_option(args: Seq<Seq<char>>, k: int, short: Seq<char>, long: Seq<char>, i: int)
    requires
        last_option_at(args, k, short, long),
    ensures
        0 <= k < args.len(),
        k % 2 == 0,
        args[k] == short || args[k] == long,
        0 <= i < args.len() && i % 2 == 0 && (args[i] == short || args[i] == long) ==> i <= k,
{
    reveal(last_option_at);
}

proof fn lemma_option_pairs_from(
    args: Seq<Seq<char>>,
    i: int,
    input: Option<Seq<char>>,
    output: Option<Seq<char>>,
    minimum: Option<u32>,
    ki: int,
    ko: int,
    km: int,
)
    requires
        option_pairs(args),
        0 <= i <= args.len(),
        i % 2 == 0,
        last_option_at(args, ki, "-i"@, "--input"@),
        last_option_at(args, ko, "-o"@, "--output"@),
        last_option_at(args, km, "-m"@, "--min-rating"@),
        ki < i ==> input == Some(args[ki + 1]),
        ko < i ==> output == Some(args[ko + 1]),
        km < i ==> minimum == spec_parse_u32(args[km + 1]),
    ensures
        spec_arguments_from(args, i, input, output, minimum) == Ok::<SpecCliRequest, Seq<char>>(
            SpecCliRequest::Convert {
                input: args[ki + 1],
                output: args[ko + 1],
                minimum_rating: spec_parse_u32(args[km + 1])->0,
            },
        ),
    decreases args.len() - i,
{
    lemma_last_option(args, ki, "-i"@, "--input"@, i);
    lemma_last_option(args, ko, "-o"@, "--output"@, i);
    lemma_last_option(args, km, "-m"@, "--min-rating"@, i);
    lemma_pair_at(args, km);
    if i < args.len() {
        let a = args[i];
        lemma_option_spellings_differ(a);
        lemma_pair_at(args, i);
        if is_input_option(a) {
            assert(ki >= i);
            lemma_input_step(args, i, input, output, minimum);
            lemma_option_pairs_from(args, i + 2, Some(args[i + 1]), output, minimum, ki, ko, km);
        } else if is_output_option(a) {
            assert(ko >= i);
            lemma_output_step(args, i, input, output, minimum);
            lemma_option_pairs_from(args, i + 2, input, Some(args[i + 1]), minimum, ki, ko, km);
        } else {
            assert(is_minimum_option(a));
            assert(km >= i);
            assert(spec_parse_u32(args[i + 1]) is Some);
            lemma_minimum_step(args, i, input, output, minimum);
            lemma_option_pairs_from(
                args,
                i + 2,
                input,
                output,
                spec_parse_u32(args[i + 1]),
                ki,
                ko,
                km,
            );
        }
    } else {
        lemma_end_step(args, args[ki + 1], args[ko + 1], spec_parse_u32(args[km + 1])->0);
    }
}

/// A command line made of option and value pairs, with each of the three
/// options present, in any order and any spelling, asks to convert the
/// last input into the last output with the last minimum rating given,
/// whatever that rating is, zero included.
pub proof fn lemma_last_option_values_are_taken(args: Seq<Seq<char>>, ki: int, ko: int, km: int)
    requires
        option_pairs(args),
        last_option_at(args, ki, "-i"@, "--input"@),
        last_option_at(args, ko, "-o"@, "--output"@),
        last_option_at(args, km, "-m"@, "--min-rating"@),
    ensures
        spec_parse_u32(args[km + 1]) is Some,
        spec_arguments(args) == Ok::<SpecCliRequest, Seq<char>>(
            SpecCliRequest::Convert {
                input: args[ki + 1],
                output: args[ko + 1],
                minimum_rating: spec_parse_u32(args[km + 1])->0,
            },
        ),
{
    lemma_last_option(args, ki, "-i"@, "--input"@, 0);
    lemma_last_option(args, ko, "-o"@, "--output"@, 0);
    lemma_last_option(args, km, "-m"@, "--min-rating"@, 0);
    lemma_pair_at(args, km);
    lemma_option_pairs_from(args, 0, None, None, None, ki, ko, km);
}

/// A `u32` written in decimal reads back as itself.
pub proof fn lemma_parse_reads_decimal(n: u32)
    ensures
        spec_parse_u32(decimal(n as nat)) == Some(n),
{
    lemma_decimal_reads_back(n as nat);
    let d = decimal(n as nat);
    assert(is_ascii_digit(d[0]));
    assert(numeral_digits(d) == d);
}

/// The three options given once each, in any order, with the minimum
/// rating written in decimal, ask for exactly that conversion, for every
/// rating from zero up.
pub proof fn lemma_three_options_in_any_order(
    first: Seq<char>,
    first_value: Seq<char>,
    second: Seq<char>,
    second_value: Seq<char>,
    third: Seq<char>,
    third_value: Seq<char>,
    input: Seq<char>,
    output: Seq<char>,
    minimum_rating: u32,
)
    requires
        ({
            let pairs = seq![(first, first_value), (second, second_value), (third, third_value)];
            forall|k: int| 0 <= k < 3 ==> {
                ||| is_input_option(#[trigger] pairs[k].0) && pairs[k].1 == input
                ||| is_output_option(pairs[k].0) && pairs[k].1 == output
                ||| is_minimum_option(pairs[k].0) && pairs[k].1 == decimal(minimum_rating as nat)
            }
        }),
        is_input_option(first) || is_input_option(second) || is_input_option(third),
        is_output_option(first) || is_output_option(second) || is_output_option(third),
        is_minimum_option(first) || is_minimum_option(second) || is_minimum_option(third),
    ensures
        spec_arguments(seq![first, first_value, second, second_value, third, third_value])
            == Ok::<SpecCliRequest, Seq<char>>(
            SpecCliRequest::Convert { input, output, minimum_rating },
        ),
{
    let args = seq![first, first_value, second, second_value, third, third_value];
    let pairs = seq![(first, first_value), (second, second_value), (third, third_value)];
    reveal(option_pairs);
    reveal(last_option_at);
    lemma_parse_reads_decimal(minimum_rating);
    lemma_option_spellings_differ(first);
    lemma_option_spellings_differ(second);
    lemma_option_spellings_differ(third);
    assert(pairs[0].0 == first && pairs[1].0 == second && pairs[2].0 == third);
    assert(pairs[0].1 == first_value && pairs[1].1 == second_value && pairs[2].1 == third_value);
    assert(args[0] == first && args[2] == second && args[4] == third);
    assert(args[1] == first_value && args[3] == second_value && args[5] == third_value);
    let ki: int = if is_input_option(third) { 4 } else if is_input_option(second) { 2 } else { 0 };
    let ko: int = if is_output_option(third) { 4 } else if is_output_option(second) { 2 } else { 0 };
    let km: int = if is_minimum_option(third) { 4 } else if is_minimum_option(second) { 2 } else { 0 };
    lemma_last_option_values_are_taken(args, ki, ko, km);
}

} // verus!
