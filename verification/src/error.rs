//! Error values of the engine: a descriptor with its source location, the
//! kinds of error, and an error with the trace of errors that caused it.
use vstd::prelude::*;
use vstd::string::*;

verus! {

/// Appending a character to a `String` extends its character sequence by it.
pub assume_specification[ String::push ](s: &mut String, ch: char)
    ensures
        final(s)@ == old(s)@.push(ch),
;

/// The character of a decimal digit.
pub open spec fn digit_char(d: nat) -> char {
    (48 + d) as char
}

/// The decimal numeral of `n`, most significant digit first, without leading zeros.
pub open spec fn decimal(n: nat) -> Seq<char>
    decreases n,
{
    if n < 10 {
        seq![digit_char(n)]
    } else {
        decimal(n / 10).push(digit_char(n % 10))
    }
}

/// The decimal numeral of `n` as a `String`.
pub fn decimal_string(n: u32) -> (r: String)
    ensures
        r@ == decimal(n as nat),
    decreases n,
{
    let d: u8 = (n % 10) as u8;
    let c: char = (48u8 + d) as char;
    if n < 10 {
        let mut s = String::new();
        s.push(c);
        s
    } else {
        let mut s = decimal_string(n / 10);
        s.push(c);
        s
    }
}

/// The decimal numeral of `n` as a `String`.
pub fn decimal_string_usize(n: usize) -> (r: String)
    ensures
        r@ == decimal(n as nat),
    decreases n,
{
    let d: u8 = (n % 10) as u8;
    let c: char = (48u8 + d) as char;
    if n < 10 {
        let mut s = String::new();
        s.push(c);
        s
    } else {
        let mut s = decimal_string_usize(n / 10);
        s.push(c);
        s
    }
}

/// Where in the source an error was raised.
#[derive(Debug, Clone)]
pub struct Location {
    pub file: String,
    pub line: u32,
}

/// A description of an error together with the place that raised it.
#[derive(Debug, Clone)]
pub struct ErrorDescriptor {
    pub desc: String,
    pub location: Location,
}

/// `file:line` of a location.
pub open spec fn location_text(l: Location) -> Seq<char> {
    l.file@ + seq![':'] + decimal(l.line as nat)
}

impl ErrorDescriptor {
    /// The description, unchanged.
    pub fn as_string(&self) -> (r: String)
        ensures
            r@ == self.desc@,
    {
        self.desc.clone()
    }

    /// The location as `file:line`.
    pub fn as_location(&self) -> (r: String)
        ensures
            r@ == location_text(self.location),
    {
        let mut s = self.location.file.clone();
        s.push(':');
        let n = decimal_string(self.location.line);
        s.append(n.as_str());
        s
    }
}

/// The ways in which presenting a frame on the window surface can fail.
#[derive(Debug, Clone, Copy, PartialEq, Eq)]
pub enum SurfaceErrorKind {
    Timeout,
    Outdated,
    Lost,
    OutOfMemory,
    Other,
}

/// A failure to present a frame: its kind and the message the graphics layer gave.
#[derive(Debug, Clone)]
pub struct SurfaceFailure {
    pub kind: SurfaceErrorKind,
    pub message: String,
}

/// The kinds of error.
#[derive(Debug, Clone)]
pub enum PE {
    NotFound(ErrorDescriptor),
    Expected(ErrorDescriptor),
    Invalid(ErrorDescriptor),
    InputFailed(ErrorDescriptor),
    Error(ErrorDescriptor),
    UnwrapFailure(ErrorDescriptor),
    MissingExpectedGlobalSprite(ErrorDescriptor),
    SurfaceError(SurfaceFailure),
    NoSpace(ErrorDescriptor),
    WrongItemType(ErrorDescriptor),
}

/// `"<label> at <file:line>: <description>"`.
pub open spec fn labelled(label: Seq<char>, e: ErrorDescriptor) -> Seq<char> {
    label + " at "@ + location_text(e.location) + ": "@ + e.desc@
}

/// The one-line message of an error kind.
pub open spec fn pe_text(pe: PE) -> Seq<char> {
    match pe {
        PE::NotFound(e) => labelled("Not Found Error"@, e),
        PE::InputFailed(e) => labelled("Input Failed Error"@, e),
        PE::Expected(e) => labelled("Expected But Not Found Error"@, e),
        PE::Error(e) => labelled("Error"@, e),
        PE::Invalid(e) => labelled("Invalid Error"@, e),
        PE::UnwrapFailure(e) => labelled("Unwrap Failure"@, e),
        PE::MissingExpectedGlobalSprite(e) => labelled("Missing Expected Global Sprite"@, e),
        PE::SurfaceError(f) => "Surface Error: "@ + f.message@,
        PE::NoSpace(e) => labelled("No Space in Inventory Error"@, e),
        PE::WrongItemType(e) => labelled("Wrong Item Type Error"@, e),
    }
}

fn labelled_string(label: &str, e: &ErrorDescriptor) -> (r: String)
    ensures
        r@ == labelled(label@, *e),
{
    let mut s = label.to_owned();
    s.append(" at ");
    let loc = e.as_location();
    s.append(loc.as_str());
    s.append(": ");
    let d = e.as_string();
    s.append(d.as_str());
    s
}

impl PE {
    /// The one-line message of this error.
    pub fn as_string(&self) -> (r: String)
        ensures
            r@ == pe_text(*self),
    {
        match self {
            PE::NotFound(e) => labelled_string("Not Found Error", e),
            PE::InputFailed(e) => labelled_string("Input Failed Error", e),
            PE::Expected(e) => labelled_string("Expected But Not Found Error", e),
            PE::Error(e) => labelled_string("Error", e),
            PE::Invalid(e) => labelled_string("Invalid Error", e),
            PE::UnwrapFailure(e) => labelled_string("Unwrap Failure", e),
            PE::MissingExpectedGlobalSprite(e) => labelled_string("Missing Expected Global Sprite", e),
            PE::SurfaceError(f) => {
                let mut s = "Surface Error: ".to_owned();
                s.append(f.message.as_str());
                s
            },
            PE::NoSpace(e) => labelled_string("No Space in Inventory Error", e),
            PE::WrongItemType(e) => labelled_string("Wrong Item Type Error", e),
        }
    }
}

/// The kinds of error that carry a descriptor.
#[derive(Debug, Clone, Copy, PartialEq, Eq)]
pub enum ErrorKind {
    NotFound,
    Expected,
    Invalid,
    InputFailed,
    Error,
    UnwrapFailure,
    MissingExpectedGlobalSprite,
    NoSpace,
    WrongItemType,
}

/// The error kind `kind` with descriptor `d`.
pub open spec fn pe_of(kind: ErrorKind, d: ErrorDescriptor) -> PE {
    match kind {
        ErrorKind::NotFound => PE::NotFound(d),
        ErrorKind::Expected => PE::Expected(d),
        ErrorKind::Invalid => PE::Invalid(d),
        ErrorKind::InputFailed => PE::InputFailed(d),
        ErrorKind::Error => PE::Error(d),
        ErrorKind::UnwrapFailure => PE::UnwrapFailure(d),
        ErrorKind::MissingExpectedGlobalSprite => PE::MissingExpectedGlobalSprite(d),
        ErrorKind::NoSpace => PE::NoSpace(d),
        ErrorKind::WrongItemType => PE::WrongItemType(d),
    }
}

/// The descriptor of an error kind, which every kind but a surface error has.
pub open spec fn descriptor_of(pe: PE) -> Option<ErrorDescriptor> {
    match pe {
        PE::NotFound(d) => Some(d),
        PE::Expected(d) => Some(d),
        PE::Invalid(d) => Some(d),
        PE::InputFailed(d) => Some(d),
        PE::Error(d) => Some(d),
        PE::UnwrapFailure(d) => Some(d),
        PE::MissingExpectedGlobalSprite(d) => Some(d),
        PE::SurfaceError(_) => None,
        PE::NoSpace(d) => Some(d),
        PE::WrongItemType(d) => Some(d),
    }
}

/// Whether `pe` is of kind `kind` and has the description `desc`, and was
/// raised by the library operation named `origin`.
pub open spec fn raised_as(pe: PE, kind: ErrorKind, desc: Seq<char>, origin: Seq<char>) -> bool {
    &&& descriptor_of(pe) matches Some(d)
    &&& pe == pe_of(kind, d)
    &&& d.desc@ == desc
    &&& d.location.file@ == origin
    &&& d.location.line == 0
}

/// The label that the message of an error of kind `kind` starts with.
pub open spec fn kind_label(kind: ErrorKind) -> Seq<char> {
    match kind {
        ErrorKind::NotFound => "Not Found Error"@,
        ErrorKind::Expected => "Expected But Not Found Error"@,
        ErrorKind::Invalid => "Invalid Error"@,
        ErrorKind::InputFailed => "Input Failed Error"@,
        ErrorKind::Error => "Error"@,
        ErrorKind::UnwrapFailure => "Unwrap Failure"@,
        ErrorKind::MissingExpectedGlobalSprite => "Missing Expected Global Sprite"@,
        ErrorKind::NoSpace => "No Space in Inventory Error"@,
        ErrorKind::WrongItemType => "Wrong Item Type Error"@,
    }
}

/// The message of an error of kind `kind` with description `desc` raised by
/// the library operation named `origin`.
pub open spec fn raised_text(kind: ErrorKind, desc: Seq<char>, origin: Seq<char>) -> Seq<char> {
    kind_label(kind) + " at "@ + origin + seq![':'] + decimal(0) + ": "@ + desc
}

/// Whether `e` is of kind `kind` with description `desc`, raised by `origin`
/// because of an error whose message and trace make up `causes`.
pub open spec fn caused_as(e: PError, kind: ErrorKind, desc: Seq<char>, origin: Seq<char>, causes: Seq<Seq<char>>) -> bool {
    raised_as(e.error, kind, desc, origin) && texts(e.trace@) == causes
}

/// An error raised as `kind`, `desc` and `origin` has the message
/// `raised_text(kind, desc, origin)`.
pub proof fn lemma_raised_text(pe: PE, kind: ErrorKind, desc: Seq<char>, origin: Seq<char>)
    requires
        raised_as(pe, kind, desc, origin),
    ensures
        pe_text(pe) == raised_text(kind, desc, origin),
{
    let d = descriptor_of(pe)->0;
    assert(location_text(d.location) == origin + seq![':'] + decimal(0));
    match kind {
        ErrorKind::NotFound => {},
        ErrorKind::Expected => {},
        ErrorKind::Invalid => {},
        ErrorKind::InputFailed => {},
        ErrorKind::Error => {},
        ErrorKind::UnwrapFailure => {},
        ErrorKind::MissingExpectedGlobalSprite => {},
        ErrorKind::NoSpace => {},
        ErrorKind::WrongItemType => {},
    }
    assert(pe_text(pe) =~= raised_text(kind, desc, origin));
}

/// An error together with the messages of the errors that led to it, innermost last.
#[derive(Debug, Clone)]
pub struct PError {
    pub error: PE,
    pub trace: Vec<String>,
}

/// The character sequences of a list of strings.
pub open spec fn texts(v: Seq<String>) -> Seq<Seq<char>> {
    v.map_values(|s: String| s@)
}

impl PError {
    pub fn new(error: PE, trace: Vec<String>) -> (r: Self)
        ensures
            r.error == error,
            r.trace@ == trace@,
    {
        Self { error, trace }
    }

    /// A fresh error of kind `kind` with description `desc`, raised by the
    /// library operation named `origin`; errors raised in the library carry
    /// the operation's name as their file and line 0.
    pub fn raised(kind: ErrorKind, desc: String, origin: &str) -> (r: Self)
        ensures
            r.error == pe_of(kind, ErrorDescriptor { desc, location: Location { file: r.error_file(), line: 0 } }),
            r.error_file()@ == origin@,
            raised_as(r.error, kind, desc@, origin@),
            r.trace@.len() == 0,
    {
        let d = ErrorDescriptor { desc, location: Location { file: origin.to_owned(), line: 0 } };
        let error = match kind {
            ErrorKind::NotFound => PE::NotFound(d),
            ErrorKind::Expected => PE::Expected(d),
            ErrorKind::Invalid => PE::Invalid(d),
            ErrorKind::InputFailed => PE::InputFailed(d),
            ErrorKind::Error => PE::Error(d),
            ErrorKind::UnwrapFailure => PE::UnwrapFailure(d),
            ErrorKind::MissingExpectedGlobalSprite => PE::MissingExpectedGlobalSprite(d),
            ErrorKind::NoSpace => PE::NoSpace(d),
            ErrorKind::WrongItemType => PE::WrongItemType(d),
        };
        PError { error, trace: Vec::new() }
    }

    /// An error of kind `kind` raised by `origin` because of `cause`: its trace
    /// is the cause's message followed by the cause's own trace.
    pub fn caused_by(kind: ErrorKind, desc: String, origin: &str, cause: &PError) -> (r: Self)
        ensures
            r.error == pe_of(kind, ErrorDescriptor { desc, location: Location { file: r.error_file(), line: 0 } }),
            r.error_file()@ == origin@,
            raised_as(r.error, kind, desc@, origin@),
            texts(r.trace@) == seq![pe_text(cause.error)] + texts(cause.trace@),
    {
        let e = PError::raised(kind, desc, origin);
        PError { error: e.error, trace: cause.as_trace() }
    }

    /// The file recorded in this error's descriptor (empty for a surface error).
    pub closed spec fn error_file(&self) -> String {
        match self.error {
            PE::NotFound(e) => e.location.file,
            PE::Expected(e) => e.location.file,
            PE::Invalid(e) => e.location.file,
            PE::InputFailed(e) => e.location.file,
            PE::Error(e) => e.location.file,
            PE::UnwrapFailure(e) => e.location.file,
            PE::MissingExpectedGlobalSprite(e) => e.location.file,
            PE::SurfaceError(f) => f.message,
            PE::NoSpace(e) => e.location.file,
            PE::WrongItemType(e) => e.location.file,
        }
    }

    /// This error's own message followed by its trace.
    pub fn as_trace(&self) -> (r: Vec<String>)
        ensures
            texts(r@) == seq![pe_text(self.error)] + texts(self.trace@),
    {
        let mut trace: Vec<String> = Vec::new();
        trace.push(self.error.as_string());
        let n = self.trace.len();
        for i in 0..n
            invariant
                n == self.trace@.len(),
                trace@.len() == i + 1,
                trace@[0]@ == pe_text(self.error),
                forall|j: int| 0 <= j < i ==> trace@[j + 1] == self.trace@[j],
        {
            let s = self.trace[i].clone();
            trace.push(s);
        }
        assert(texts(trace@) =~= seq![pe_text(self.error)] + texts(self.trace@));
        trace
    }
}

} // verus!

verus! {

/// The `i`-th piece when `s` is cut into pieces of `k` characters, the last one possibly shorter.
pub open spec fn chunk_at(s: Seq<char>, k: nat, i: int) -> Seq<char> {
    s.subrange(i * k, if (i + 1) * k < s.len() { (i + 1) * k } else { s.len() as int })
}

/// Cuts `input` into pieces of `chunk_size` characters; the last piece holds what is left.
pub fn split_into_chunks(input: &str, chunk_size: usize) -> (r: Vec<String>)
    requires
        chunk_size > 0,
    ensures
        r@.len() == (input@.len() + chunk_size - 1) / (chunk_size as int),
        forall|i: int| 0 <= i < r@.len() ==> #[trigger] r@[i]@ == chunk_at(input@, chunk_size as nat, i),
{
    let ghost s = input@;
    let ghost k = chunk_size as int;
    let _n = input.unicode_len();
    let mut result: Vec<String> = Vec::new();
    let mut cur = String::new();
    let mut full: usize = 0;
    let mut count: usize = 0;
    let ghost mut i: int = 0;
    for c in it: input.chars()
        invariant
            s == input@,
            k == chunk_size,
            k > 0,
            it.seq() == s,
            i == it.index(),
            0 <= i <= s.len(),
            s.len() <= usize::MAX,
            full <= i,
            count < k,
            cur@.len() == count,
            i == full * k + count,
            cur@ == s.subrange(full * k, i),
            result@.len() == full,
            forall|j: int| 0 <= j < full ==> #[trigger] result@[j]@ == s.subrange(j * k, (j + 1) * k),
    {
        assert(c == s[i]);
        cur.push(c);
        proof { i = i + 1; }
        assert(cur@ =~= s.subrange(full * k, i));
        if count + 1 == chunk_size {
            assert((full + 1) * k == full * k + k) by (nonlinear_arith);
            assert(full + 1 <= full * k + k) by (nonlinear_arith)
                requires k >= 1, full >= 0;
            result.push(cur);
            cur = String::new();
            full = full + 1;
            count = 0;
        } else {
            count = count + 1;
        }
    }
    let ghost n = s.len() as int;
    assert(n == full * k + count);
    if count > 0 {
        result.push(cur);
        proof {
            assert((full + 1) * k == full * k + k) by (nonlinear_arith);
            vstd::arithmetic::div_mod::lemma_fundamental_div_mod_converse(
                n + k - 1, k, full as int + 1, count - 1);
        }
    } else {
        proof {
            vstd::arithmetic::div_mod::lemma_fundamental_div_mod_converse(
                n + k - 1, k, full as int, k - 1);
        }
    }
    assert forall|j: int| 0 <= j < result@.len() implies #[trigger] result@[j]@ == chunk_at(s, k as nat, j) by {
        if j < full {
            assert((j + 1) * k <= full * k) by (nonlinear_arith)
                requires j + 1 <= full, k >= 1;
        } else {
            assert((full + 1) * k == full * k + k) by (nonlinear_arith);
        }
    }
    result
}

} // verus!

verus! {

/// The pieces `parts` written one after another.
pub open spec fn joined(parts: Seq<Seq<char>>) -> Seq<char>
    decreases parts.len(),
{
    if parts.len() == 0 {
        Seq::empty()
    } else {
        joined(parts.drop_last()) + parts.last()
    }
}

/// The pieces that `split_into_chunks` cuts `s` into, `k` characters each.
pub open spec fn chunks_of(s: Seq<char>, k: nat) -> Seq<Seq<char>> {
    Seq::new(((s.len() + k - 1) / (k as int)) as nat, |i: int| chunk_at(s, k, i))
}

#[verifier::spinoff_prover]
proof fn lemma_rejoin_prefix(s: Seq<char>, k: nat, n: int)
    requires
        k > 0,
        0 <= n <= chunks_of(s, k).len(),
    ensures
        joined(chunks_of(s, k).take(n)) == s.subrange(0, if n * k < s.len() { n * k } else { s.len() as int }),
    decreases n,
{
    let parts = chunks_of(s, k);
    let cnt = (s.len() + k - 1) / (k as int);
    vstd::arithmetic::div_mod::lemma_fundamental_div_mod(s.len() + k - 1, k as int);
    if n == 0 {
        assert(parts.take(0) =~= Seq::<Seq<char>>::empty());
        assert(s.subrange(0, 0) =~= Seq::<char>::empty());
    } else {
        lemma_rejoin_prefix(s, k, n - 1);
        assert(parts.take(n).drop_last() =~= parts.take(n - 1));
        assert(parts.take(n).last() == chunk_at(s, k, n - 1));
        assert((n - 1) * k + k == n * k) by (nonlinear_arith);
        assert((n - 1) * k < s.len()) by (nonlinear_arith)
            requires
                n <= cnt,
                cnt * k + (s.len() + k - 1) % (k as int) == s.len() + k - 1,
                0 <= (s.len() + k - 1) % (k as int) < k,
                k > 0;
        let end = if n * k < s.len() { n * k } else { s.len() as int };
        assert(joined(parts.take(n - 1)) == s.subrange(0, (n - 1) * k));
        assert(chunk_at(s, k, n - 1) == s.subrange((n - 1) * k, end));
        assert(joined(parts.take(n)) == joined(parts.take(n).drop_last()) + parts.take(n).last());
        assert(s.subrange(0, (n - 1) * k) + s.subrange((n - 1) * k, end) =~= s.subrange(0, end));
    }
}

/// Writing the pieces that `split_into_chunks` cuts a string into one after
/// another gives the string back.
pub proof fn lemma_chunks_rejoin(s: Seq<char>, k: nat)
    requires
        k > 0,
    ensures
        joined(chunks_of(s, k)) == s,
{
    let parts = chunks_of(s, k);
    let cnt = (s.len() + k - 1) / (k as int);
    vstd::arithmetic::div_mod::lemma_fundamental_div_mod(s.len() + k - 1, k as int);
    lemma_rejoin_prefix(s, k, parts.len() as int);
    assert(parts.take(parts.len() as int) =~= parts);
    assert(cnt * k >= s.len()) by (nonlinear_arith)
        requires
            cnt * k + (s.len() + k - 1) % (k as int) == s.len() + k - 1,
            0 <= (s.len() + k - 1) % (k as int) < k;
    assert(s.subrange(0, s.len() as int) =~= s);
}

} // verus!
