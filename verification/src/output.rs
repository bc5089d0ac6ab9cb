//! Where and how the finished value is written.

use vstd::prelude::*;
use crate::format::{format_for_word, unsupported_message, DocumentFormat};
use crate::text::lower_seq;

verus! {

/// A destination for the serialized value.
#[derive(Debug, Clone, PartialEq, Eq)]
pub enum OutputDestination {
    Stdout,
    File(String),
}

impl OutputDestination {
    /// A file destination.
    pub fn file(path: &str) -> (r: Self)
        ensures
            r matches OutputDestination::File(p) && p@ == path@,
    {
        OutputDestination::File(path.to_string())
    }
}

/// How the finished value is serialized and where it goes.
#[derive(Debug, Clone)]
pub struct OutputOptions {
    pub format: DocumentFormat,
    pub pretty: bool,
    pub destinations: Vec<OutputDestination>,
}

impl OutputOptions {
    /// Pretty output of the given format to standard output.
    pub fn new(format: DocumentFormat) -> (r: Self)
        ensures
            r.format == format,
            r.pretty,
            r.destinations@ == seq![OutputDestination::Stdout],
    {
        let mut destinations: Vec<OutputDestination> = Vec::new();
        destinations.push(OutputDestination::Stdout);
        OutputOptions { format, pretty: true, destinations }
    }

    /// The same options with pretty printing switched on or off.
    pub fn with_pretty(self, pretty: bool) -> (r: Self)
        ensures
            r.format == self.format,
            r.pretty == pretty,
            r.destinations@ == self.destinations@,
    {
        let mut s = self;
        s.pretty = pretty;
        s
    }

    /// The same options with the destinations replaced.
    pub fn with_destinations(self, destinations: Vec<OutputDestination>) -> (r: Self)
        ensures
            r.format == self.format,
            r.pretty == self.pretty,
            r.destinations@ == destinations@,
    {
        let mut s = self;
        s.destinations = destinations;
        s
    }

    /// The same options with one more destination at the end.
    pub fn add_destination(self, destination: OutputDestination) -> (r: Self)
        ensures
            r.format == self.format,
            r.pretty == self.pretty,
            r.destinations@ == self.destinations@.push(destination),
    {
        let mut s = self;
        s.destinations.push(destination);
        s
    }

    /// Whether writing has anywhere to go.
    pub fn has_destinations(&self) -> (r: bool)
        ensures
            r == (self.destinations@.len() > 0),
    {
        self.destinations.len() > 0
    }
}

impl Default for OutputOptions {
    fn default() -> (r: Self)
        ensures
            r.format == DocumentFormat::Json,
            r.pretty,
            r.destinations@ == seq![OutputDestination::Stdout],
    {
        let f = DocumentFormat::default();
        Self::new(f)
    }
}

/// A destination as plain values: standard output, or a file's path.
pub open spec fn dest_view(d: OutputDestination) -> Option<Seq<char>> {
    match d {
        OutputDestination::Stdout => None,
        OutputDestination::File(p) => Some(p@),
    }
}

/// Where the value goes when no destination is named.
pub open spec fn default_temp_file() -> Seq<char> {
    "/tmp/schemaui.yaml"@
}

/// The destinations named on the command line: standard output first when
/// asked for, then the files in order.
pub open spec fn named_destinations(stdout: bool, files: Seq<Seq<char>>) -> Seq<Option<Seq<char>>> {
    let fs = files.map_values(|f: Seq<char>| Some(f));
    if stdout {
        seq![None::<Seq<char>>] + fs
    } else {
        fs
    }
}

/// The output the command line asks for: the format named (JSON when none
/// is; an unknown keyword is refused), pretty unless turned off, to the
/// named destinations; with none named, to the temporary file (the one
/// given, or the default), or nowhere when that is turned off.
pub open spec fn output_plan(
    output_format: Option<Seq<char>>,
    stdout: bool,
    files: Seq<Seq<char>>,
    temp_file: Option<Seq<char>>,
    no_temp_file: bool,
    no_pretty: bool,
) -> Result<Option<(DocumentFormat, bool, Seq<Option<Seq<char>>>)>, Seq<char>> {
    let format = match output_format {
        Some(k) => match format_for_word(lower_seq(k)) {
            Some(f) => Ok(f),
            None => Err(unsupported_message(lower_seq(k))),
        },
        None => Ok(DocumentFormat::Json),
    };
    match format {
        Err(e) => Err(e),
        Ok(f) => {
            let named = named_destinations(stdout, files);
            if named.len() > 0 {
                Ok(Some((f, !no_pretty, named)))
            } else if no_temp_file {
                Ok(None)
            } else {
                let fallback = match temp_file {
                    Some(t) => t,
                    None => default_temp_file(),
                };
                Ok(Some((f, !no_pretty, seq![Some(fallback)])))
            }
        },
    }
}

/// Builds the output options from the command line's output flags.
pub fn build_output_options(
    output_format: Option<&str>,
    stdout: bool,
    output_files: &Vec<String>,
    temp_file: Option<&str>,
    no_temp_file: bool,
    no_pretty: bool,
) -> (r: Result<Option<OutputOptions>, String>)
    ensures
        match (r, output_plan(
            crate::format::opt_str_view(output_format),
            stdout,
            crate::text::string_views(output_files@),
            crate::format::opt_str_view(temp_file),
            no_temp_file,
            no_pretty,
        )) {
            (Ok(Some(o)), Ok(Some((f, pretty, dests)))) => o.format == f && o.pretty == pretty
                && o.destinations@.map_values(|d: OutputDestination| dest_view(d)) == dests,
            (Ok(None), Ok(None)) => true,
            (Err(e), Err(m)) => e@ == m,
            _ => false,
        },
{
    let format = match output_format {
        Some(value) => match DocumentFormat::from_keyword(value) {
            Ok(f) => f,
            Err(e) => {
                return Err(e);
            },
        },
        None => DocumentFormat::default(),
    };
    let ghost files = crate::text::string_views(output_files@);
    let mut destinations: Vec<OutputDestination> = Vec::new();
    if stdout {
        destinations.push(OutputDestination::Stdout);
    }
    let ghost base = destinations@.map_values(|d: OutputDestination| dest_view(d));
    let mut i: usize = 0;
    while i < output_files.len()
        invariant
            i <= output_files.len(),
            files == crate::text::string_views(output_files@),
            files.len() == output_files@.len(),
            base == (if stdout { seq![None::<Seq<char>>] } else { Seq::<Option<Seq<char>>>::empty() }),
            destinations@.map_values(|d: OutputDestination| dest_view(d))
                == base + files.subrange(0, i as int).map_values(|f: Seq<char>| Some(f)),
        decreases output_files.len() - i,
    {
        let ghost before = destinations@;
        destinations.push(OutputDestination::File(output_files[i].clone()));
        assert(destinations@.drop_last() =~= before);
        assert(files[i as int] == output_files@[i as int]@);
        assert(files.subrange(0, i + 1).map_values(|f: Seq<char>| Some(f))
            =~= files.subrange(0, i as int).map_values(|f: Seq<char>| Some(f)).push(Some(files[i as int])));
        assert(destinations@.map_values(|d: OutputDestination| dest_view(d))
            =~= before.map_values(|d: OutputDestination| dest_view(d)).push(Some(files[i as int])));
        i = i + 1;
    }
    assert(files.subrange(0, files.len() as int) =~= files);
    assert(destinations@.map_values(|d: OutputDestination| dest_view(d)) =~= named_destinations(stdout, files));
    if destinations.len() == 0 {
        if no_temp_file {
            return Ok(None);
        }
        let fallback = match temp_file {
            Some(t) => t.to_string(),
            None => "/tmp/schemaui.yaml".to_string(),
        };
        let ghost fv = fallback@;
        destinations.push(OutputDestination::File(fallback));
        assert(destinations@.map_values(|d: OutputDestination| dest_view(d)) =~= seq![Some(fv)]);
    }
    Ok(Some(OutputOptions { format, pretty: !no_pretty, destinations }))
}

} // verus!
