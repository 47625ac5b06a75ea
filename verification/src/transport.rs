//! The plain shapes in which values are written down and read back. They
//! carry no invariant: a canonical value is made from one by checking it.

use crate::error::Error;
use vstd::prelude::*;
use vstd::string::StringSliceAdditionalSpecFns;
use vstd::utf8::encode_utf8;
use vstd::utf8::is_ascii_chars;
use vstd::utf8::is_ascii_chars_encode_utf8;

verus! {

/// A task as its user describes it.
#[derive(Debug)]
pub struct Task {
    pub execution_strategy: ExecutionStrategy,
    pub environment_variables: EnvironmentVariables,
    pub program: Program,
    pub arguments: Arguments,
    pub inputs: Inputs,
    pub outputs: Outputs,
}

/// How often the program runs: once, or once for each input.
#[derive(Debug)]
pub enum ExecutionStrategy {
    Simple,
    ForEachInput { inputs_filter: Inputs },
}

/// Which inputs a strategy applies to.
#[derive(Debug)]
pub enum InputsFilter {
    All,
    Matches(Inputs),
}

/// Which files belong to a task.
#[derive(Debug)]
pub struct Inputs {
    pub include_files: Vec<String>,
    pub exclude_files: Vec<String>,
    pub include_globs: Vec<String>,
    pub exclude_globs: Vec<String>,
    pub inter_file_references: Vec<InterFileReferences>,
}

/// Which files a task is expected to write.
#[derive(Clone, Debug, PartialEq, Eq)]
pub struct Outputs {
    pub include_files: Vec<String>,
    pub include_match_transforms: Vec<Vec<MatchTransform>>,
    pub exclude_matches: Vec<Match>,
}

/// A rule by which the content of some files names further files.
#[derive(Debug)]
pub struct InterFileReferences {
    /// The files to scan; where absent, the files found so far.
    pub files_to_match: Option<Inputs>,
    pub match_transforms: Vec<MatchTransform>,
    /// The directories in which a named file is looked for; where absent,
    /// the name is taken as it is.
    pub directories_to_search: Option<Vec<String>>,
}

/// A regular expression with the templates that replace its matches.
#[derive(Clone, Debug, PartialEq, Eq, PartialOrd, Ord)]
pub struct MatchTransform {
    pub match_regular_expression: String,
    pub match_transform_expressions: Vec<String>,
}

/// A regular expression.
#[derive(Clone, Debug, PartialEq, Eq, PartialOrd, Ord)]
pub struct Match {
    pub match_regular_expression: String,
}

/// The arguments of a program, in order.
#[derive(Clone, Debug, PartialEq, Eq)]
pub struct Arguments {
    pub arguments: Vec<String>,
}

/// The environment of a program, as pairs of key and value.
#[derive(Clone, Debug, PartialEq, Eq)]
pub struct EnvironmentVariables {
    pub environment_variables: Vec<(String, String)>,
}

/// The path of a program.
#[derive(Clone, Debug, PartialEq, Eq)]
pub struct Program {
    pub program: String,
}

/// The identity schemes that there are.
#[derive(Clone, Copy, Debug, PartialEq, Eq, Structural)]
pub enum IdentityScheme {
    ContentSha256,
}

/// The scheme that identifies content by its SHA-256 digest.
#[derive(Clone, Copy, Debug, PartialEq, Eq, Structural)]
pub struct ContentSha256;

/// A SHA-256 digest.
#[derive(Clone, Copy, Debug, PartialEq, Eq, PartialOrd, Ord, Hash)]
pub struct Sha256(pub [u8; 32]);

/// The identities that an index knows.
#[derive(Clone, Debug, PartialEq, Eq)]
pub struct Listing {
    pub entries: Vec<Sha256>,
}

/// What went into a run and what came out of it.
#[derive(Clone, Debug, PartialEq, Eq)]
pub struct TaskSummary {
    pub input: TaskInput,
    pub output: TaskOutput,
}

/// What a run depends on.
#[derive(Clone, Debug, PartialEq, Eq)]
pub struct TaskInput {
    pub environment_variables: EnvironmentVariables,
    pub program: Program,
    pub arguments: Arguments,
    pub input_files: FileIdentitiesManifest,
    pub outputs_description: Outputs,
}

/// What a run read and wrote.
#[derive(Clone, Debug, PartialEq, Eq)]
pub struct TaskOutput {
    pub input_files_with_program: FileIdentitiesManifest,
    pub output_files: FileIdentitiesManifest,
}

/// A list of paths.
#[derive(Clone, Debug, PartialEq, Eq)]
pub struct FilesManifest {
    pub paths: Vec<String>,
}

/// Paths with the identity of what each holds, where it could be read.
#[derive(Clone, Debug, PartialEq, Eq)]
pub struct FileIdentitiesManifest {
    pub identity_scheme: IdentityScheme,
    pub identities: Vec<(String, Option<Sha256>)>,
}

/// When a run took place, how long it took, and on what machine.
#[derive(Clone, Debug, PartialEq, Eq)]
pub struct Metadata {
    pub timestamp_nanos: i64,
    pub execution_duration_nanos: u128,
    pub system: System,
}

/// The machine that a run took place on.
#[derive(Clone, Debug, PartialEq, Eq)]
pub struct System {
    pub name: Option<String>,
    pub long_os_version: Option<String>,
    pub kernel_version: Option<String>,
    pub distribution_id: String,
    pub total_memory: u64,
    pub estimated_num_cpu_cores: usize,
}

impl Default for ExecutionStrategy {
    fn default() -> (r: Self)
        ensures
            r is Simple,
    {
        Self::Simple
    }
}

impl Default for IdentityScheme {
    fn default() -> (r: Self)
        ensures
            r == IdentityScheme::ContentSha256,
    {
        Self::ContentSha256
    }
}

impl Program {
    /// The program at the path.
    pub fn from(program: String) -> (r: Self)
        ensures
            r.program@ == program@,
    {
        Self { program }
    }
}

impl Outputs {
    /// A description that expects no output.
    pub fn empty() -> (r: Self)
        ensures
            r.include_files@.len() == 0,
            r.include_match_transforms@.len() == 0,
            r.exclude_matches@.len() == 0,
    {
        Self {
            include_files: Vec::new(),
            include_match_transforms: Vec::new(),
            exclude_matches: Vec::new(),
        }
    }
}

impl Arguments {
    /// No arguments.
    pub fn empty() -> (r: Self)
        ensures
            r.arguments@.len() == 0,
    {
        Self { arguments: Vec::new() }
    }
}

impl EnvironmentVariables {
    /// An empty environment.
    pub fn empty() -> (r: Self)
        ensures
            r.environment_variables@.len() == 0,
    {
        Self { environment_variables: Vec::new() }
    }
}

impl FilesManifest {
    /// A manifest without paths.
    pub fn empty() -> (r: Self)
        ensures
            r.paths@.len() == 0,
    {
        Self { paths: Vec::new() }
    }
}

impl FileIdentitiesManifest {
    /// A manifest without paths, in the SHA-256 scheme.
    pub fn empty() -> (r: Self)
        ensures
            r.identity_scheme == IdentityScheme::ContentSha256,
            r.identities@.len() == 0,
    {
        Self { identity_scheme: IdentityScheme::ContentSha256, identities: Vec::new() }
    }
}

/// The lower-case hexadecimal digit for a number below sixteen.
pub open spec fn hex_digit(n: int) -> char {
    if n < 10 {
        (('0' as int) + n) as char
    } else {
        (('a' as int) + n - 10) as char
    }
}

/// Bytes in lower-case hexadecimal: two digits for each byte, the high half
/// first.
pub open spec fn hex_encoded(bytes: Seq<u8>) -> Seq<char> {
    Seq::new(
        2 * bytes.len(),
        |i: int|
            if i % 2 == 0 {
                hex_digit(bytes[i / 2] as int / 16)
            } else {
                hex_digit(bytes[i / 2] as int % 16)
            },
    )
}

/// The number that a hexadecimal digit stands for, in either case.
pub open spec fn hex_value(digit: u8) -> Option<int> {
    if 0x30 <= digit <= 0x39 {
        Some(digit - 0x30)
    } else if 0x61 <= digit <= 0x66 {
        Some(digit - 0x61 + 10)
    } else if 0x41 <= digit <= 0x46 {
        Some(digit - 0x41 + 10)
    } else {
        None
    }
}

/// Whether the text is an even number of hexadecimal digits.
pub open spec fn is_hex(text: Seq<u8>) -> bool {
    text.len() % 2 == 0 && forall|i: int| 0 <= i < text.len() ==> hex_value(#[trigger] text[i])
        is Some
}

/// The bytes that hexadecimal text stands for.
pub open spec fn hex_decoded(text: Seq<u8>) -> Seq<u8> {
    Seq::new(
        text.len() / 2,
        |i: int| (hex_value(text[2 * i]).unwrap() * 16 + hex_value(text[2 * i + 1]).unwrap()) as u8,
    )
}

/// Calls `hex::encode`, which writes each byte as two lower-case
/// hexadecimal digits.
#[verifier::external_body]
pub(crate) fn hex_encode(bytes: &[u8]) -> (r: String)
    ensures
        r@ == hex_encoded(bytes@),
{
    ::hex::encode(bytes)
}

/// Calls `hex::decode`, which accepts an even number of hexadecimal digits
/// of either case and gives the bytes they stand for; `None` for any other
/// text.
#[verifier::external_body]
pub(crate) fn hex_decode(text: &[u8]) -> (r: Option<Vec<u8>>)
    ensures
        r is Some <==> is_hex(text@),
        r matches Some(bytes) ==> bytes@ == hex_decoded(text@),
{
    match ::hex::decode(text) {
        Ok(bytes) => Some(bytes),
        Err(_) => None,
    }
}

/// Decoding what was encoded gives the bytes back.
pub proof fn lemma_hex_round_trip(bytes: Seq<u8>)
    ensures
        is_ascii_chars(hex_encoded(bytes)),
        is_hex(encode_utf8(hex_encoded(bytes))),
        hex_decoded(encode_utf8(hex_encoded(bytes))) == bytes,
{
    let text = hex_encoded(bytes);
    assert forall|i: int| 0 <= i < text.len() implies '\0' <= #[trigger] text[i] <= '\u{7f}' by {
        let b = bytes[i / 2] as int;
        assert(0 <= b / 16 < 16 && 0 <= b % 16 < 16);
    }
    is_ascii_chars_encode_utf8(text);
    let raw = encode_utf8(text);
    assert forall|i: int| 0 <= i < raw.len() implies hex_value(#[trigger] raw[i]) is Some by {
        let b = bytes[i / 2] as int;
        assert(0 <= b / 16 < 16 && 0 <= b % 16 < 16);
        assert(raw[i] == text[i] as u8);
    }
    assert forall|i: int| 0 <= i < bytes.len() implies hex_decoded(raw)[i] == bytes[i] by {
        let b = bytes[i] as int;
        assert(0 <= b / 16 < 16 && 0 <= b % 16 < 16);
        assert(raw[2 * i] == text[2 * i] as u8);
        assert(raw[2 * i + 1] == text[2 * i + 1] as u8);
        assert((2 * i) / 2 == i && (2 * i) % 2 == 0);
        assert((2 * i + 1) / 2 == i && (2 * i + 1) % 2 == 1);
        assert(hex_value(raw[2 * i]) == Some(b / 16));
        assert(hex_value(raw[2 * i + 1]) == Some(b % 16));
        assert((b / 16) * 16 + b % 16 == b);
    }
    assert(hex_decoded(raw) =~= bytes);
}

impl DeepView for MatchTransform {
    type V = (Seq<char>, Seq<Seq<char>>);

    open spec fn deep_view(&self) -> (Seq<char>, Seq<Seq<char>>) {
        (self.match_regular_expression@, self.match_transform_expressions.deep_view())
    }
}

impl DeepView for Match {
    type V = Seq<char>;

    open spec fn deep_view(&self) -> Seq<char> {
        self.match_regular_expression@
    }
}

impl View for Sha256 {
    type V = Seq<u8>;

    open spec fn view(&self) -> Seq<u8> {
        self.0@
    }
}

impl DeepView for Sha256 {
    type V = Seq<u8>;

    open spec fn deep_view(&self) -> Seq<u8> {
        self.0@
    }
}

impl Sha256 {
    /// The identity with these bytes.
    pub fn new(hash: [u8; 32]) -> (r: Self)
        ensures
            r@ == hash@,
    {
        Self(hash)
    }

    /// The bytes of the digest.
    pub fn bytes(&self) -> (r: &[u8; 32])
        ensures
            r@ == self@,
    {
        &self.0
    }

    /// The identity that a text of sixty-four hexadecimal digits stands
    /// for; any other text is refused.
    pub fn try_from(hex_str: &str) -> (r: Result<Self, Error>)
        ensures
            r is Ok <==> is_hex(hex_str.spec_bytes()) && hex_str.spec_bytes().len() == 64,
            r matches Ok(identity) ==> identity@ == hex_decoded(hex_str.spec_bytes()),
            r matches Err(e) ==> e == Error::Serialization,
    {
        match Self::from_hex(hex_str.as_bytes()) {
            Some(identity) => Ok(identity),
            None => Err(Error::Serialization),
        }
    }

    /// The identity that sixty-four hexadecimal digits stand for.
    pub fn from_hex(digits: &[u8]) -> (r: Option<Self>)
        ensures
            r is Some <==> is_hex(digits@) && digits@.len() == 64,
            r matches Some(identity) ==> identity@ == hex_decoded(digits@),
    {
        match hex_decode(digits) {
            None => None,
            Some(bytes) => {
                if bytes.len() != 32 {
                    return None;
                }
                let mut hash: [u8; 32] = [0u8; 32];
                let mut i: usize = 0;
                while i < 32
                    invariant
                        0 <= i <= 32,
                        bytes.len() == 32,
                        hash@.len() == 32,
                        forall|k: int| 0 <= k < i ==> hash@[k] == bytes@[k],
                    decreases 32 - i,
                {
                    hash[i] = bytes[i];
                    i += 1;
                }
                assert(hash@ =~= bytes@);
                Some(Self(hash))
            },
        }
    }

    /// The identity in lower-case hexadecimal: sixty-four digits.
    pub fn to_string(&self) -> (r: String)
        ensures
            r@ == hex_encoded(self@),
            r@.len() == 64,
    {
        hex_encode(self.0.as_slice())
    }
}

/// An identity is read back from its text as it was written.
pub proof fn lemma_identity_text_round_trip(identity: Sha256)
    ensures
        is_hex(encode_utf8(hex_encoded(identity@))),
        encode_utf8(hex_encoded(identity@)).len() == 64,
        hex_decoded(encode_utf8(hex_encoded(identity@))) == identity@,
{
    lemma_hex_round_trip(identity@);
    is_ascii_chars_encode_utf8(hex_encoded(identity@));
}

} // verus!
