//! The configuration of a run, as given on the command line.

use crate::text::{pair_views, same_text, split, split_on, texts, trim, trimmed};
use vstd::prelude::*;

verus! {

/// The mathematical content of a [`CliConfig`].
pub struct ConfigView {
    pub input_file_path: Option<Seq<char>>,
    pub pronunciation_files: Seq<(Seq<char>, Seq<char>)>,
    pub wiki_file_path: Option<Seq<char>>,
    pub output_path: Option<Seq<char>>,
    pub query: Option<Seq<char>>,
    pub wiki_prefix: Option<Seq<char>>,
    pub source_language: Seq<char>,
    pub target_language: Seq<char>,
    pub title: Seq<char>,
    pub author: Seq<char>,
    pub force: bool,
    pub print_help: bool,
    pub reverse_output_path: Option<Seq<char>>,
    pub reverse_title: Option<Seq<char>>,
}

/// What is wrong with a command line.
pub enum ConfigFault {
    /// An argument that is no known option.
    IllegalArgument,
    /// An option without the value that it takes.
    MissingParameter,
    /// A pronunciation source that is not a name, a colon and a file name.
    BadPronunciation,
}

/// The message for a fault of the command line.
pub open spec fn fault_text(fault: ConfigFault) -> Seq<char> {
    match fault {
        ConfigFault::IllegalArgument => "Illegal argument"@,
        ConfigFault::MissingParameter => "Missing parameter"@,
        ConfigFault::BadPronunciation => "Pronunciation must have 2 parts: '<name>:<filename>'"@,
    }
}

/// The view of an optional string.
pub open spec fn option_view(o: Option<String>) -> Option<Seq<char>> {
    match o {
        Some(s) => Some(s@),
        None => None,
    }
}

/// Whether an option takes a value.
pub open spec fn takes_value(option: Seq<char>) -> bool {
    ||| option == "-i"@
    ||| option == "-o"@
    ||| option == "-ro"@
    ||| option == "-w"@
    ||| option == "-s"@
    ||| option == "-wp"@
    ||| option == "-p"@
    ||| option == "-sl"@
    ||| option == "-tl"@
    ||| option == "-t"@
    ||| option == "-rt"@
    ||| option == "-a"@
}

/// The name and the file name of a pronunciation source written as
/// `name:file`; the name is trimmed.
pub open spec fn pronunciation_source(value: Seq<char>) -> Result<
    (Seq<char>, Seq<char>),
    ConfigFault,
> {
    let parts = split_on(value, ':');
    if parts.len() != 2 {
        Err(ConfigFault::BadPronunciation)
    } else {
        Ok((trimmed(parts[0]), parts[1]))
    }
}

/// The configuration after an option that takes a value.
pub open spec fn with_option(c: ConfigView, option: Seq<char>, value: Seq<char>) -> Result<
    ConfigView,
    ConfigFault,
> {
    if option == "-i"@ {
        Ok(ConfigView { input_file_path: Some(value), ..c })
    } else if option == "-o"@ {
        Ok(ConfigView { output_path: Some(value), ..c })
    } else if option == "-ro"@ {
        Ok(ConfigView { reverse_output_path: Some(value), ..c })
    } else if option == "-w"@ {
        Ok(ConfigView { wiki_file_path: Some(value), ..c })
    } else if option == "-s"@ {
        Ok(ConfigView { query: Some(value), ..c })
    } else if option == "-wp"@ {
        Ok(ConfigView { wiki_prefix: Some(value), ..c })
    } else if option == "-p"@ {
        match pronunciation_source(value) {
            Ok(source) => Ok(
                ConfigView { pronunciation_files: c.pronunciation_files.push(source), ..c },
            ),
            Err(fault) => Err(fault),
        }
    } else if option == "-sl"@ {
        Ok(ConfigView { source_language: value, ..c })
    } else if option == "-tl"@ {
        Ok(ConfigView { target_language: value, ..c })
    } else if option == "-t"@ {
        Ok(ConfigView { title: value, ..c })
    } else if option == "-rt"@ {
        Ok(ConfigView { reverse_title: Some(value), ..c })
    } else {
        Ok(ConfigView { author: value, ..c })
    }
}

/// The configuration that the arguments from position `i` on make of `c`, or
/// the first fault among them.
pub open spec fn parsed_from(c: ConfigView, args: Seq<Seq<char>>, i: int) -> Result<
    ConfigView,
    ConfigFault,
>
    decreases args.len() - i,
{
    if i < 0 || i >= args.len() {
        Ok(c)
    } else if takes_value(args[i]) {
        if i + 1 >= args.len() {
            Err(ConfigFault::MissingParameter)
        } else {
            match with_option(c, args[i], args[i + 1]) {
                Ok(next) => parsed_from(next, args, i + 2),
                Err(fault) => Err(fault),
            }
        }
    } else if args[i] == "-f"@ {
        parsed_from(ConfigView { force: true, ..c }, args, i + 1)
    } else if args[i] == "-h"@ {
        parsed_from(ConfigView { print_help: true, ..c }, args, i + 1)
    } else {
        Err(ConfigFault::IllegalArgument)
    }
}

/// The configuration before any argument.
pub open spec fn default_config() -> ConfigView {
    ConfigView {
        input_file_path: None,
        pronunciation_files: Seq::empty(),
        wiki_file_path: None,
        output_path: None,
        query: None,
        wiki_prefix: None,
        source_language: "en"@,
        target_language: "cs"@,
        title: Seq::empty(),
        author: Seq::empty(),
        force: false,
        print_help: false,
        reverse_output_path: None,
        reverse_title: None,
    }
}

/// The configuration that a command line gives. The first argument is the
/// program's name. Without any further argument, help is asked for.
pub open spec fn parsed(args: Seq<Seq<char>>) -> Result<ConfigView, ConfigFault> {
    match parsed_from(default_config(), args, 1) {
        Ok(c) => if args.len() <= 1 {
            Ok(ConfigView { print_help: true, ..c })
        } else {
            Ok(c)
        },
        Err(fault) => Err(fault),
    }
}

/// The configuration of a run.
#[derive(Debug)]
pub struct CliConfig {
    pub input_file_path: Option<String>,
    pub pronunciation_files: Vec<(String, String)>,
    pub wiki_file_path: Option<String>,
    pub output_path: Option<String>,
    pub query: Option<String>,
    pub wiki_prefix: Option<String>,
    pub source_language: String,
    pub target_language: String,
    pub title: String,
    pub author: String,
    pub force: bool,
    pub print_help: bool,
    pub reverse_output_path: Option<String>,
    pub reverse_title: Option<String>,
}

impl View for CliConfig {
    type V = ConfigView;

    open spec fn view(&self) -> ConfigView {
        ConfigView {
            input_file_path: option_view(self.input_file_path),
            pronunciation_files: pair_views(self.pronunciation_files@),
            wiki_file_path: option_view(self.wiki_file_path),
            output_path: option_view(self.output_path),
            query: option_view(self.query),
            wiki_prefix: option_view(self.wiki_prefix),
            source_language: self.source_language@,
            target_language: self.target_language@,
            title: self.title@,
            author: self.author@,
            force: self.force,
            print_help: self.print_help,
            reverse_output_path: option_view(self.reverse_output_path),
            reverse_title: option_view(self.reverse_title),
        }
    }
}

impl CliConfig {
    /// The configuration before any argument: from English to Czech.
    pub fn new() -> (r: Self)
        ensures
            r@ == default_config(),
    {
        let r = CliConfig {
            input_file_path: None,
            pronunciation_files: Vec::new(),
            wiki_file_path: None,
            output_path: None,
            query: None,
            wiki_prefix: None,
            force: false,
            source_language: "en".to_owned(),
            target_language: "cs".to_owned(),
            title: String::new(),
            author: String::new(),
            print_help: false,
            reverse_output_path: None,
            reverse_title: None,
        };
        assert(r@.pronunciation_files =~= Seq::empty());
        r
    }

    /// Reads the command line into a configuration. Whether the files that it
    /// names exist is not looked at.
    pub fn build(args: Vec<String>) -> (r: Result<CliConfig, &'static str>)
        ensures
            match r {
                Ok(config) => parsed(texts(args@)) == Ok::<ConfigView, ConfigFault>(config@),
                Err(message) => parsed(texts(args@)) is Err && message@ == fault_text(
                    parsed(texts(args@))->Err_0,
                ),
            },
    {
        let ghost a = texts(args@);
        let mut config = Self::new();
        let mut i: usize = 1;
        while i < args.len()
            invariant
                1 <= i,
                a == texts(args@),
                parsed_from(default_config(), a, 1) == parsed_from(config@, a, i as int),
            decreases args.len() - i,
        {
            let arg = args[i].as_str();
            assert(a[i as int] == arg@);
            let value = if i + 1 < args.len() {
                assert(a[i + 1] == args@[i + 1]@);
                Some(args[i + 1].clone())
            } else {
                None
            };
            let ghost before = config@;
            if same_text(arg, "-i") {
                config.input_file_path = Some(Self::get_param_value(value)?);
            } else if same_text(arg, "-o") {
                config.output_path = Some(Self::get_param_value(value)?);
            } else if same_text(arg, "-ro") {
                config.reverse_output_path = Some(Self::get_param_value(value)?);
            } else if same_text(arg, "-w") {
                config.wiki_file_path = Some(Self::get_param_value(value)?);
            } else if same_text(arg, "-s") {
                config.query = Some(Self::get_param_value(value)?);
            } else if same_text(arg, "-wp") {
                config.wiki_prefix = Some(Self::get_param_value(value)?);
            } else if same_text(arg, "-p") {
                let source = Self::get_pronunciation(value)?;
                config.pronunciation_files.push(source);
                assert(config@.pronunciation_files =~= before.pronunciation_files.push(
                    (source.0@, source.1@),
                ));
            } else if same_text(arg, "-sl") {
                config.source_language = Self::get_param_value(value)?;
            } else if same_text(arg, "-tl") {
                config.target_language = Self::get_param_value(value)?;
            } else if same_text(arg, "-t") {
                config.title = Self::get_param_value(value)?;
            } else if same_text(arg, "-rt") {
                config.reverse_title = Some(Self::get_param_value(value)?);
            } else if same_text(arg, "-a") {
                config.author = Self::get_param_value(value)?;
            } else if same_text(arg, "-f") {
                config.force = true;
                assert(config@ == (ConfigView { force: true, ..before }));
                i += 1;
                continue ;
            } else if same_text(arg, "-h") {
                config.print_help = true;
                assert(config@ == (ConfigView { print_help: true, ..before }));
                i += 1;
                continue ;
            } else {
                return Err("Illegal argument");
            }
            assert(with_option(before, a[i as int], a[i + 1]) == Ok::<ConfigView, ConfigFault>(
                config@,
            ));
            i += 2;
        }
        if args.len() <= 1 {
            config.print_help = true;
        }
        Ok(config)
    }

    /// The value of an option, which must be there.
    pub fn get_param_value(param: Option<String>) -> (r: Result<String, &'static str>)
        ensures
            match param {
                Some(value) => r == Ok::<String, &'static str>(value),
                None => r matches Err(message) && message@ == fault_text(
                    ConfigFault::MissingParameter,
                ),
            },
    {
        match param {
            Some(value) => Ok(value),
            None => Err("Missing parameter"),
        }
    }

    /// The name and the file name of a pronunciation source written as
    /// `name:file`.
    pub fn get_pronunciation(param: Option<String>) -> (r: Result<(String, String), &'static str>)
        ensures
            match param {
                Some(value) => match pronunciation_source(value@) {
                    Ok(source) => r matches Ok(pair) && pair.0@ == source.0 && pair.1@ == source.1,
                    Err(fault) => r matches Err(message) && message@ == fault_text(fault),
                },
                None => r matches Err(message) && message@ == fault_text(
                    ConfigFault::MissingParameter,
                ),
            },
    {
        let name_and_file_name = Self::get_param_value(param)?;
        let parts = split(name_and_file_name.as_str(), ':');
        if parts.len() != 2 {
            return Err("Pronunciation must have 2 parts: '<name>:<filename>'");
        }
        assert(texts(parts@)[0] == parts@[0]@ && texts(parts@)[1] == parts@[1]@);
        let name = trim(parts[0].as_str());
        let file_name = parts[1].clone();
        Ok((name, file_name))
    }

    /// The help text.
    pub fn help_text() -> (r: &'static str)
        ensures
            r@ == HELP@,
    {
        HELP
    }
}

/// The help text.
pub const HELP: &'static str = r#"
All input files must be encoded in UTF-8.

Dictionary parameters:

    -i      Path to tab delimited input file where first column is in source language
            and second column is in target language.

    -w      Path to wiktionary file in xml.bz2 format. Requires -wp parameter.

    -wp     Wiki prefix e.g. Czech or German or ...

    -p      Pronunciation file with a name. e.g. US:data/en_US.txt where US is name
            and data/en_US.txt tab delimited file where first column is a word in
            source language and in second column is pronunciation. You can use this
            parametr multiple times.

    -o      Output directory

    -ro      Output directory for reversed dictionary

    -s      Search given word in builded dictionary.

    -f      Force output if the output directory exists and overwrite the files.

    -sl     Source language. Default en.

    -tl     Target language. Default cs.

    -t      Dictionary title.

    -rt      Dictionary title for reversed dictionary.

    -a      Author.

    -h      This help.

Examples:

    It is recommended to build the app in release mode. Processing
    wiktionary data may be very slow.

    To generate English-Czech dictionary run:

    cargo run --release -- -w data/enwiktionary.xml.bz2 -wp Czech -o data/kindle-en-cs -t "English-Czech dictionary" -a pejuko
"#;

impl Default for CliConfig {
    fn default() -> (r: Self)
        ensures
            r@ == default_config(),
    {
        Self::new()
    }
}

} // verus!
