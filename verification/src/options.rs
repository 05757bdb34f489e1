//! Compiler options from the command line.

use vstd::prelude::*;
use vstd::string::*;
use crate::text::{chars_of, string_of};

verus! {

/// One command-line argument: a plain value, a flag `-name`, or an option
/// `--key=value`.
#[derive(Debug, Clone)]
pub enum CliOption {
    Value(String),
    Flag(String),
    Option(String, String),
}

/////////////////////////////////////////////////////
// CliError
/////////////////////////////////////////////////////
#[derive(Debug, Clone)]
pub enum CliError {
    UnknownFlag(String),
    UnknownOption(String),
    UnsupportedPlatform(String),
}

/// The mathematical value of a command-line error: its kind and message.
pub enum SpecCliError {
    UnknownFlag(Seq<char>),
    UnknownOption(Seq<char>),
    UnsupportedPlatform(Seq<char>),
}

impl View for CliError {
    type V = SpecCliError;

    open spec fn view(&self) -> SpecCliError {
        match self {
            CliError::UnknownFlag(m) => SpecCliError::UnknownFlag(m@),
            CliError::UnknownOption(m) => SpecCliError::UnknownOption(m@),
            CliError::UnsupportedPlatform(m) => SpecCliError::UnsupportedPlatform(m@),
        }
    }
}

/////////////////////////////////////////////////////
// CompilerOptions
/////////////////////////////////////////////////////

/// The source files to compile and the output path, as paths in text.
#[derive(Debug, Clone)]
pub struct CompilerOptions {
    pub files: Vec<String>,
    pub output: String,
}

/// The mathematical value of compiler options.
#[verifier::ext_equal]
pub struct SpecCompilerOptions {
    pub files: Seq<Seq<char>>,
    pub output: Seq<char>,
}

impl View for CompilerOptions {
    type V = SpecCompilerOptions;

    open spec fn view(&self) -> SpecCompilerOptions {
        SpecCompilerOptions { files: self.files@.map_values(|f: String| f@), output: self.output@ }
    }
}

pub open spec fn msg_unknown_flag(name: Seq<char>) -> Seq<char> {
    "Unknown flag: '-"@ + name + "'"@
}

pub open spec fn msg_unknown_option(key: Seq<char>) -> Seq<char> {
    "Unknown option: '--"@ + key + "=...'"@
}

/// Reading the arguments from `i` on, with the options `acc` collected so
/// far: a value names a source file; `-o` followed by a value sets the
/// output (and takes that value), `-o` otherwise does nothing; `--output=x`
/// sets the output; any other flag or option is an error.
pub open spec fn options_rest(args: Seq<CliOption>, i: int, acc: SpecCompilerOptions) -> Result<
    SpecCompilerOptions,
    SpecCliError,
>
    decreases args.len() - i,
{
    if !(0 <= i < args.len()) {
        Ok(acc)
    } else {
        match args[i] {
            CliOption::Value(v) => options_rest(
                args,
                i + 1,
                SpecCompilerOptions { files: acc.files.push(v@), ..acc },
            ),
            CliOption::Flag(name) => if name@ == "o"@ {
                if i + 1 < args.len() && args[i + 1] is Value {
                    options_rest(
                        args,
                        i + 2,
                        SpecCompilerOptions { output: args[i + 1]->Value_0@, ..acc },
                    )
                } else {
                    options_rest(args, i + 1, acc)
                }
            } else {
                Err(SpecCliError::UnknownFlag(msg_unknown_flag(name@)))
            },
            CliOption::Option(key, value) => if key@ == "output"@ {
                options_rest(args, i + 1, SpecCompilerOptions { output: value@, ..acc })
            } else {
                Err(SpecCliError::UnknownOption(msg_unknown_option(key@)))
            },
        }
    }
}

/// The compiler options that `args` give on `platform` (the name of the
/// operating system): only `"linux"` is supported, and the output is
/// `output` unless the arguments set it.
pub open spec fn compiler_options(platform: Seq<char>, args: Seq<CliOption>) -> Result<
    SpecCompilerOptions,
    SpecCliError,
> {
    if platform != "linux"@ {
        Err(SpecCliError::UnsupportedPlatform("Unsupported compilation platform."@))
    } else {
        options_rest(args, 0, SpecCompilerOptions { files: seq![], output: "output"@ })
    }
}

fn text_is(s: &str, w: &str) -> (r: bool)
    ensures
        r == (s@ == w@),
{
    let a = String::from_str(s);
    let b = String::from_str(w);
    a.eq(&b)
}

/////////////////////////////////////////////////////
// Parse functions
/////////////////////////////////////////////////////

/// The compiler options that `cli_options` give on `platform`, as
/// `compiler_options` states them.
pub fn parse_cli_options(platform: &str, cli_options: Vec<CliOption>) -> (r: Result<CompilerOptions, CliError>)
    ensures
        match compiler_options(platform@, cli_options@) {
            Ok(o) => r matches Ok(x) && x@ == o,
            Err(e) => r matches Err(x) && x@ == e,
        },
{
    if !text_is(platform, "linux") {
        return Err(CliError::UnsupportedPlatform(String::from_str("Unsupported compilation platform.")));
    }

    let mut options = CompilerOptions { files: Vec::new(), output: String::from_str("output") };
    proof {
        assert(options@ =~= (SpecCompilerOptions { files: seq![], output: "output"@ }));
    }

    let mut i: usize = 0;
    while i < cli_options.len()
        invariant
            i <= cli_options@.len(),
            compiler_options(platform@, cli_options@) == options_rest(cli_options@, i as int, options@),
        decreases cli_options@.len() - i,
    {
        let ghost before = options@;
        match &cli_options[i] {
            CliOption::Value(value) => {
                options.files.push(value.clone());
                proof {
                    assert(options@.files =~= before.files.push(value@));
                }
            },
            CliOption::Flag(value) => {
                if text_is(value.as_str(), "o") {
                    if i + 1 < cli_options.len() {
                        match &cli_options[i + 1] {
                            CliOption::Value(flag_value) => {
                                options.output = flag_value.clone();
                                // Skip the next value
                                i = i + 1;
                            },
                            _ => {},
                        }
                    }
                } else {
                    let mut message = String::from_str("Unknown flag: '-");
                    message.append(value.as_str());
                    message.append("'");
                    return Err(CliError::UnknownFlag(message));
                }
            },
            CliOption::Option(key, value) => {
                if text_is(key.as_str(), "output") {
                    options.output = value.clone();
                } else {
                    let mut message = String::from_str("Unknown option: '--");
                    message.append(key.as_str());
                    message.append("=...'");
                    return Err(CliError::UnknownOption(message));
                }
            },
        }
        i = i + 1;
    }

    Ok(options)
}


/// A command-line argument as a value.
pub enum SpecCliOption {
    Value(Seq<char>),
    Flag(Seq<char>),
    Option(Seq<char>, Seq<char>),
}

impl View for CliOption {
    type V = SpecCliOption;

    open spec fn view(&self) -> SpecCliOption {
        match self {
            CliOption::Value(v) => SpecCliOption::Value(v@),
            CliOption::Flag(f) => SpecCliOption::Flag(f@),
            CliOption::Option(k, v) => SpecCliOption::Option(k@, v@),
        }
    }
}

/// The index of the first `=` in `s`, or its length where there is none.
pub open spec fn first_equals(s: Seq<char>) -> int
    decreases s.len(),
{
    if s.len() == 0 {
        0
    } else if s[0] == '=' {
        0
    } else {
        1 + first_equals(s.drop_first())
    }
}

/// What one argument is: `--key=value` (or `--key`, with an empty value) is
/// an option, `-name` a flag, anything else (`-` included) a value.
pub open spec fn classify_argument(a: Seq<char>) -> SpecCliOption {
    if a.len() >= 2 && a[0] == '-' && a[1] == '-' {
        let rest = a.skip(2);
        let k = first_equals(rest);
        SpecCliOption::Option(
            rest.take(k),
            if k < rest.len() { rest.skip(k + 1) } else { seq![] },
        )
    } else if a.len() >= 2 && a[0] == '-' {
        SpecCliOption::Flag(a.skip(1))
    } else {
        SpecCliOption::Value(a)
    }
}

proof fn lemma_first_equals_bounds(s: Seq<char>)
    ensures
        0 <= first_equals(s) <= s.len(),
    decreases s.len(),
{
    if s.len() > 0 {
        lemma_first_equals_bounds(s.drop_first());
    }
}

/// The index of the first `=` in `chars[from..]`, as an index into `chars`.
fn find_equals(chars: &Vec<char>, from: usize) -> (r: usize)
    requires
        from <= chars@.len(),
    ensures
        r == from + first_equals(chars@.skip(from as int)),
        r <= chars@.len(),
{
    let mut i = from;
    while i < chars.len()
        invariant
            from <= i <= chars@.len(),
            first_equals(chars@.skip(from as int)) == (i - from) + first_equals(chars@.skip(i as int)),
        decreases chars@.len() - i,
    {
        if chars[i] == '=' {
            proof {
                assert(first_equals(chars@.skip(i as int)) == 0);
            }
            return i;
        }
        proof {
            assert(chars@.skip(i as int).drop_first() =~= chars@.skip(i + 1));
        }
        i = i + 1;
    }
    proof {
        assert(chars@.skip(i as int) =~= Seq::<char>::empty());
    }
    i
}

/// One argument, as `classify_argument` states it.
fn classify(argument: &String) -> (r: CliOption)
    ensures
        r@ == classify_argument(argument@),
{
    let chars = chars_of(argument.as_str());
    let n = chars.len();
    if n >= 2 && chars[0] == '-' && chars[1] == '-' {
        let k = find_equals(&chars, 2);
        proof {
            lemma_first_equals_bounds(chars@.skip(2));
        }
        let key = string_of(&chars, 2, k);
        let value = if k < n {
            string_of(&chars, k + 1, n)
        } else {
            String::new()
        };
        proof {
            let rest = chars@.skip(2);
            assert(key@ =~= rest.take(k - 2));
            if k < n {
                assert(value@ =~= rest.skip(k - 2 + 1));
            }
        }
        CliOption::Option(key, value)
    } else if n >= 2 && chars[0] == '-' {
        let name = string_of(&chars, 1, n);
        proof {
            assert(name@ =~= chars@.skip(1));
        }
        CliOption::Flag(name)
    } else {
        CliOption::Value(argument.clone())
    }
}

/// The arguments of a command line after the program's name, each as
/// `classify_argument` states it.
pub fn parse_cli_arguments(arguments: Vec<String>) -> (r: Vec<CliOption>)
    ensures
        r@.len() == if arguments@.len() == 0 { 0 } else { arguments@.len() - 1 },
        forall|j: int| 0 <= j < r@.len() ==> #[trigger] r@[j]@ == classify_argument(arguments@[j + 1]@),
{
    let mut options: Vec<CliOption> = Vec::new();
    let mut i: usize = 1;
    while i < arguments.len()
        invariant
            1 <= i,
            i == 1 || i <= arguments@.len(),
            options@.len() == i - 1,
            forall|j: int| 0 <= j < options@.len() ==> #[trigger] options@[j]@ == classify_argument(arguments@[j + 1]@),
        decreases arguments@.len() - i,
    {
        let option = classify(&arguments[i]);
        options.push(option);
        i = i + 1;
    }
    options
}


/////////////////////////////////////////////////////
// What the arguments mean, argument by argument
/////////////////////////////////////////////////////

/// Whether an argument is the flag `-o`.
pub open spec fn is_output_flag(a: CliOption) -> bool {
    a matches CliOption::Flag(n) && n@ == "o"@
}

/// Whether an argument is one that the compiler knows: a value, `-o`, or
/// `--output=...`.
pub open spec fn is_known_argument(a: CliOption) -> bool {
    &&& a matches CliOption::Flag(n) ==> n@ == "o"@
    &&& a matches CliOption::Option(k, _) ==> k@ == "output"@
}

/// Whether the argument at `j` names a source file: a value that does not
/// follow `-o`.
pub open spec fn names_file(args: Seq<CliOption>, j: int) -> bool {
    args[j] is Value && !(j > 0 && is_output_flag(args[j - 1]))
}

/// The output that the argument at `j` sets, if any: a value that follows
/// `-o`, or the value of `--output=...`.
pub open spec fn sets_output(args: Seq<CliOption>, j: int) -> Option<Seq<char>> {
    match args[j] {
        CliOption::Value(v) => if j > 0 && is_output_flag(args[j - 1]) {
            Some(v@)
        } else {
            None
        },
        CliOption::Option(k, v) => if k@ == "output"@ {
            Some(v@)
        } else {
            None
        },
        _ => None,
    }
}

/// The source files named among the first `n` arguments, in order.
pub open spec fn files_among(args: Seq<CliOption>, n: int) -> Seq<Seq<char>>
    decreases n,
{
    if n <= 0 {
        seq![]
    } else if names_file(args, n - 1) {
        files_among(args, n - 1).push(args[n - 1]->Value_0@)
    } else {
        files_among(args, n - 1)
    }
}

/// The output that the last of the first `n` arguments that sets one sets;
/// `output` where none does.
pub open spec fn last_output(args: Seq<CliOption>, n: int) -> Seq<char>
    decreases n,
{
    if n <= 0 {
        "output"@
    } else {
        match sets_output(args, n - 1) {
            Some(v) => v,
            None => last_output(args, n - 1),
        }
    }
}

proof fn lemma_options_rest_reads_all(args: Seq<CliOption>, i: int)
    requires
        0 <= i <= args.len(),
        forall|j: int| 0 <= j < args.len() ==> is_known_argument(#[trigger] args[j]),
        i < args.len() ==> !names_file(args, i) ==> !(args[i] is Value),
    ensures
        options_rest(args, i, SpecCompilerOptions { files: files_among(args, i), output: last_output(args, i) })
            == Ok::<SpecCompilerOptions, SpecCliError>(
            SpecCompilerOptions { files: files_among(args, args.len() as int), output: last_output(args, args.len() as int) },
        ),
    decreases args.len() - i,
{
    if i < args.len() {
        assert(is_known_argument(args[i]));
        let acc = SpecCompilerOptions { files: files_among(args, i), output: last_output(args, i) };
        match args[i] {
            CliOption::Value(v) => {
                lemma_options_rest_reads_all(args, i + 1);
            },
            CliOption::Flag(name) => {
                if i + 1 < args.len() && args[i + 1] is Value {
                    assert(!names_file(args, i + 1));
                    lemma_options_rest_reads_all(args, i + 2);
                } else {
                    lemma_options_rest_reads_all(args, i + 1);
                }
            },
            CliOption::Option(key, value) => {
                lemma_options_rest_reads_all(args, i + 1);
            },
        }
    }
}

proof fn lemma_options_rest_refuses(args: Seq<CliOption>, i: int, j: int, acc: SpecCompilerOptions)
    requires
        0 <= i <= j < args.len(),
        !is_known_argument(args[j]),
    ensures
        options_rest(args, i, acc) is Err,
    decreases j - i,
{
    if i < j {
        match args[i] {
            CliOption::Value(v) => {
                lemma_options_rest_refuses(args, i + 1, j, SpecCompilerOptions { files: acc.files.push(v@), ..acc });
            },
            CliOption::Flag(name) => {
                if name@ == "o"@ {
                    if i + 1 < args.len() && args[i + 1] is Value {
                        lemma_options_rest_refuses(
                            args,
                            i + 2,
                            j,
                            SpecCompilerOptions { output: args[i + 1]->Value_0@, ..acc },
                        );
                    } else {
                        lemma_options_rest_refuses(args, i + 1, j, acc);
                    }
                }
            },
            CliOption::Option(key, value) => {
                if key@ == "output"@ {
                    lemma_options_rest_refuses(args, i + 1, j, SpecCompilerOptions { output: value@, ..acc });
                }
            },
        }
    }
}

/// On Linux, arguments that are all values, `-o` or `--output=...` give
/// as source files the values that do not follow `-o`, in order, and as
/// output what the last `-o value` or `--output=value` sets (`output`
/// where none does), wherever these stand. Any other flag or option is
/// refused.
pub proof fn lemma_options_from_arguments(platform: Seq<char>, args: Seq<CliOption>)
    ensures
        platform == "linux"@ && (forall|j: int| 0 <= j < args.len() ==> is_known_argument(#[trigger] args[j]))
            ==> compiler_options(platform, args) == Ok::<SpecCompilerOptions, SpecCliError>(
            SpecCompilerOptions { files: files_among(args, args.len() as int), output: last_output(args, args.len() as int) },
        ),
        (exists|j: int| 0 <= j < args.len() && !is_known_argument(#[trigger] args[j])) ==> compiler_options(
            platform,
            args,
        ) is Err,
{
    if platform == "linux"@ {
        if forall|j: int| 0 <= j < args.len() ==> is_known_argument(#[trigger] args[j]) {
            lemma_options_rest_reads_all(args, 0);
            assert(files_among(args, 0) =~= Seq::<Seq<char>>::empty());
        }
        if exists|j: int| 0 <= j < args.len() && !is_known_argument(#[trigger] args[j]) {
            let j = choose|j: int| 0 <= j < args.len() && !is_known_argument(#[trigger] args[j]);
            lemma_options_rest_refuses(args, 0, j, SpecCompilerOptions { files: seq![], output: "output"@ });
        }
    }
}


proof fn lemma_first_equals_after_key(key: Seq<char>, rest: Seq<char>)
    requires
        forall|k: int| 0 <= k < key.len() ==> #[trigger] key[k] != '=',
        rest.len() == 0 || rest[0] == '=',
    ensures
        first_equals(key + rest) == key.len(),
    decreases key.len(),
{
    if key.len() > 0 {
        assert((key + rest).drop_first() =~= key.drop_first() + rest);
        lemma_first_equals_after_key(key.drop_first(), rest);
    } else {
        assert(key + rest =~= rest);
    }
}

/// How an argument is read: `--key=value` (the key without `=`) is the
/// option `key` with `value`, and `--key` the option `key` with an empty
/// value; `-name` (the name neither empty nor starting with `-`) is the
/// flag `name`; an argument that does not start with `-`, and `-` itself,
/// is a value.
pub proof fn lemma_arguments_read_as_written(key: Seq<char>, value: Seq<char>, name: Seq<char>, a: Seq<char>)
    ensures
        (forall|k: int| 0 <= k < key.len() ==> #[trigger] key[k] != '=') ==> {
            &&& classify_argument(seq!['-', '-'] + key + seq!['='] + value) == SpecCliOption::Option(key, value)
            &&& classify_argument(seq!['-', '-'] + key) == SpecCliOption::Option(key, seq![])
        },
        name.len() >= 1 && name[0] != '-' ==> classify_argument(seq!['-'] + name) == SpecCliOption::Flag(name),
        a.len() == 0 || a[0] != '-' || a == seq!['-'] ==> classify_argument(a) == SpecCliOption::Value(a),
{
    if forall|k: int| 0 <= k < key.len() ==> #[trigger] key[k] != '=' {
        let a1 = seq!['-', '-'] + key + seq!['='] + value;
        let r1 = a1.skip(2);
        assert(r1 =~= key + (seq!['='] + value));
        lemma_first_equals_after_key(key, seq!['='] + value);
        assert(r1.take(key.len() as int) =~= key);
        assert(r1.skip(key.len() + 1int) =~= value);
        let a2 = seq!['-', '-'] + key;
        let r2 = a2.skip(2);
        assert(r2 =~= key + Seq::<char>::empty());
        lemma_first_equals_after_key(key, seq![]);
        assert(r2.take(key.len() as int) =~= key);
    }
    if name.len() >= 1 && name[0] != '-' {
        let a3 = seq!['-'] + name;
        assert(a3[1] == name[0]);
        assert(a3.skip(1) =~= name);
    }
}

} // verus!
