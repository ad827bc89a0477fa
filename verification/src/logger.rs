//! A terminal logger that mixes the output sinks with knowledge of the
//! requested verbosity: quiet drops informational messages, and verbose
//! messages are built only when verbose output is wanted.

use vstd::prelude::*;

verus! {

/// What a written message does to a sink: the text goes out as a line, with a
/// newline supplied when the message does not end in one.
pub open spec fn write_spec(buf: Seq<char>, msg: Seq<char>) -> Seq<char> {
    if msg.len() > 0 && msg.last() == '\n' {
        buf + msg
    } else {
        buf + msg + seq!['\n']
    }
}

/// A message produced only when needed: a ready string, or a closure run
/// only when the message will actually be written.
pub trait LazyStr: Sized {
    /// The value can be turned into its text.
    spec fn lazy_ok(&self) -> bool;

    /// `r` is a text the value may turn into.
    spec fn lazy_str(&self, r: Seq<char>) -> bool;

    /// Turns the value into its text.
    fn to_str(self) -> (r: String)
        requires
            self.lazy_ok(),
        ensures
            self.lazy_str(r@),
    ;
}

impl<'a> LazyStr for &'a str {
    open spec fn lazy_ok(&self) -> bool {
        true
    }

    open spec fn lazy_str(&self, r: Seq<char>) -> bool {
        r == self@
    }

    fn to_str(self) -> (r: String) {
        self.to_owned()
    }
}

impl<F: FnOnce() -> String> LazyStr for F {
    open spec fn lazy_ok(&self) -> bool {
        call_requires(*self, ())
    }

    open spec fn lazy_str(&self, r: Seq<char>) -> bool {
        exists|s: String| #[trigger] call_ensures(*self, (), s) && s@ == r
    }

    fn to_str(self) -> (r: String) {
        let r = self();
        proof {
            assert(call_ensures(self, (), r));
        }
        r
    }
}

/// Appends the message to the sink, closing the line when the message does
/// not close it itself.
fn write_line(buf: &mut String, msg: &str)
    ensures
        final (buf)@ == write_spec(old(buf)@, msg@),
{
    let n = msg.unicode_len();
    buf.append(msg);
    if n == 0 || msg.get_char(n - 1) != '\n' {
        proof {
            reveal_strlit("\n");
        }
        buf.append("\n");
    }
}

/// The output and error sinks, with the verbosity the caller asked for.
#[derive(Debug)]
pub struct TermLogger {
    output: String,
    error: String,
    quiet: bool,
    verbose: bool,
}

impl TermLogger {
    /// Everything written to the output sink so far.
    pub closed spec fn spec_output(&self) -> Seq<char> {
        self.output@
    }

    /// Everything written to the error sink so far.
    pub closed spec fn spec_error(&self) -> Seq<char> {
        self.error@
    }

    /// Informational messages are dropped.
    pub closed spec fn spec_quiet(&self) -> bool {
        self.quiet
    }

    /// Verbose messages are written.
    pub closed spec fn spec_verbose(&self) -> bool {
        self.verbose
    }

    /// A logger with empty sinks, neither quiet nor verbose.
    pub fn new() -> (r: TermLogger)
        ensures
            r.spec_output() == Seq::<char>::empty(),
            r.spec_error() == Seq::<char>::empty(),
            !r.spec_quiet(),
            !r.spec_verbose(),
    {
        TermLogger { output: String::new(), error: String::new(), quiet: false, verbose: false }
    }

    /// The same logger, with quiet set as given.
    pub fn with_quiet(self, quiet: bool) -> (r: TermLogger)
        ensures
            r.spec_output() == self.spec_output(),
            r.spec_error() == self.spec_error(),
            r.spec_quiet() == quiet,
            r.spec_verbose() == self.spec_verbose(),
    {
        TermLogger { quiet, ..self }
    }

    /// The same logger, with verbose set as given.
    pub fn with_verbose(self, verbose: bool) -> (r: TermLogger)
        ensures
            r.spec_output() == self.spec_output(),
            r.spec_error() == self.spec_error(),
            r.spec_quiet() == self.spec_quiet(),
            r.spec_verbose() == verbose,
    {
        TermLogger { verbose, ..self }
    }

    /// Writes the message to the output sink, unless quiet; a quiet logger
    /// never builds the message at all.
    pub fn info<L: LazyStr>(&mut self, msg: L)
        requires
            !old(self).spec_quiet() ==> msg.lazy_ok(),
        ensures
            final (self).spec_error() == old(self).spec_error(),
            final (self).spec_quiet() == old(self).spec_quiet(),
            final (self).spec_verbose() == old(self).spec_verbose(),
            old(self).spec_quiet() ==> final (self).spec_output() == old(self).spec_output(),
            !old(self).spec_quiet() ==> exists|m: Seq<char>|
                msg.lazy_str(m) && final (self).spec_output() == #[trigger] write_spec(
                    old(self).spec_output(),
                    m,
                ),
    {
        if !self.quiet {
            let ghost gmsg = msg;
            let text = msg.to_str();
            let ghost m = text@;
            write_line(&mut self.output, text.as_str());
            proof {
                assert(gmsg.lazy_str(m));
                assert(self.spec_output() == write_spec(old(self).spec_output(), m));
            }
        }
    }

    /// Writes the message to the error sink, whatever the verbosity.
    pub fn warn(&mut self, msg: &str)
        ensures
            final (self).spec_output() == old(self).spec_output(),
            final (self).spec_quiet() == old(self).spec_quiet(),
            final (self).spec_verbose() == old(self).spec_verbose(),
            final (self).spec_error() == write_spec(old(self).spec_error(), msg@),
    {
        write_line(&mut self.error, msg);
    }

    /// Writes the message to the output sink only when verbose; otherwise
    /// the message is never built.
    pub fn verbose<L: LazyStr>(&mut self, msg: L)
        requires
            old(self).spec_verbose() ==> msg.lazy_ok(),
        ensures
            final (self).spec_error() == old(self).spec_error(),
            final (self).spec_quiet() == old(self).spec_quiet(),
            final (self).spec_verbose() == old(self).spec_verbose(),
            !old(self).spec_verbose() ==> final (self).spec_output() == old(self).spec_output(),
            old(self).spec_verbose() ==> exists|m: Seq<char>|
                msg.lazy_str(m) && final (self).spec_output() == #[trigger] write_spec(
                    old(self).spec_output(),
                    m,
                ),
    {
        if self.verbose {
            let ghost gmsg = msg;
            let text = msg.to_str();
            let ghost m = text@;
            write_line(&mut self.output, text.as_str());
            proof {
                assert(gmsg.lazy_str(m));
                assert(self.spec_output() == write_spec(old(self).spec_output(), m));
            }
        }
    }

    /// Short client program name.
    pub fn cli_name(&self) -> (r: &'static str)
        ensures
            r@ == "hg"@,
    {
        "hg"
    }

    /// Settles the sinks; owned buffers hold everything already, so nothing
    /// changes.
    pub fn flush(&mut self)
        ensures
            *final (self) == *old(self),
    {
    }

    /// Everything written to the output sink, for callers that drain it.
    pub fn output_text(&self) -> (r: &String)
        ensures
            r@ == self.spec_output(),
    {
        &self.output
    }

    /// Everything written to the error sink.
    pub fn error_text(&self) -> (r: &String)
        ensures
            r@ == self.spec_error(),
    {
        &self.error
    }
}

} // verus!
