//! Finding the directives in a source file's text.

use crate::expression::Expression;
use fancy_regex::Regex;
use vstd::prelude::*;
use vstd::string::StringSliceAdditionalSpecFns;

verus! {

/// Which of the two directive forms an occurrence has.
#[derive(Clone, Copy, Debug, PartialEq, Eq, Structural)]
pub enum DirectiveKind {
    /// `precompileIncludeStr(..)`
    Str,
    /// `precompileIncludeData(..)`
    Data,
}

/// One match of a directive pattern: where it starts, as a byte offset into
/// the text, and the reference between its quotes.
#[derive(Clone, Debug, PartialEq, Eq)]
pub struct Capture {
    pub start: usize,
    pub reference: String,
}

impl View for Capture {
    type V = (nat, Seq<char>);

    open spec fn view(&self) -> (nat, Seq<char>) {
        (self.start as nat, self.reference@)
    }
}

/// One directive found in a source file.
#[derive(Clone, Debug, PartialEq, Eq)]
pub struct Directive {
    pub kind: DirectiveKind,
    /// The text between the quotes, as written.
    pub raw_reference: String,
    /// The file that holds the directive.
    pub source_file: String,
    /// The line the directive starts on, counted from 1.
    pub line_number: usize,
}

/// A directive as a mathematical value.
pub ghost struct DirectiveView {
    pub kind: DirectiveKind,
    pub raw_reference: Seq<char>,
    pub source_file: Seq<char>,
    pub line_number: nat,
}

impl View for Directive {
    type V = DirectiveView;

    open spec fn view(&self) -> DirectiveView {
        DirectiveView {
            kind: self.kind,
            raw_reference: self.raw_reference@,
            source_file: self.source_file@,
            line_number: self.line_number as nat,
        }
    }
}

/// Why a text could not be scanned.
#[derive(Clone, Copy, Debug, PartialEq, Eq, Structural)]
pub enum ScanError {
    /// The pattern of this form could not be applied to the text.
    Pattern(DirectiveKind),
    /// The text fills the address space, so that its lines cannot be counted.
    TooLong,
}

/// The matches of the regular expression `pattern` in `text`, from left to
/// right: for each the byte offset where it starts and the text of its first
/// group. `None` where the pattern does not compile, the search fails, or a
/// match lacks that group.
pub uninterp spec fn regex_captures(pattern: Seq<char>, text: Seq<char>) -> Option<
    Seq<(nat, Seq<char>)>,
>;

/// The views of a list of captures.
pub open spec fn captures_view(captures: Seq<Capture>) -> Seq<(nat, Seq<char>)> {
    captures.map_values(|c: Capture| c@)
}

/// Compiles `pattern` with `fancy_regex::Regex::new` and walks
/// `Regex::captures_iter` over `text`. Trusted: the outcome is
/// `regex_captures` of the two texts, and every match starts inside `text`.
#[verifier::external_body]
fn find_captures(pattern: &str, text: &str) -> (found: Option<Vec<Capture>>)
    ensures
        match found {
            Some(captures) => regex_captures(pattern@, text@) == Some(captures_view(captures@)),
            None => regex_captures(pattern@, text@) is None,
        },
        found matches Some(captures) ==> forall|i: int|
            0 <= i < captures.len() ==> (#[trigger] captures[i]).start <= text.spec_bytes().len(),
{
    let regex = Regex::new(pattern).ok()?;
    regex.captures_iter(text).map(
        |item| {
            let groups = item.ok()?;
            Some(
                Capture {
                    start: groups.get(0)?.start(),
                    reference: groups.get(1)?.as_str().to_string(),
                },
            )
        },
    ).collect()
}

/// How many of `bytes` are line feeds.
pub open spec fn newlines(bytes: Seq<u8>) -> nat
    decreases bytes.len(),
{
    if bytes.len() == 0 {
        0
    } else {
        newlines(bytes.drop_last()) + if bytes.last() == 0x0Au8 {
            1nat
        } else {
            0nat
        }
    }
}

/// The line, counted from 1, that byte `offset` of `bytes` stands on.
pub open spec fn line_at(bytes: Seq<u8>, offset: int) -> nat {
    1 + newlines(bytes.take(offset))
}

/// The line of `content`, counted from 1, that holds byte `offset`: one more
/// than the line feeds before it.
pub fn line_number(content: &str, offset: usize) -> (line: usize)
    requires
        offset <= content.spec_bytes().len(),
        offset < usize::MAX,
    ensures
        line == line_at(content.spec_bytes(), offset as int),
{
    let bytes = content.as_bytes();
    let mut line: usize = 1;
    let mut i: usize = 0;
    while i < offset
        invariant
            i <= offset <= bytes@.len(),
            offset < usize::MAX,
            line == line_at(bytes@, i as int),
            line <= i + 1,
        decreases offset - i,
    {
        proof {
            assert(bytes@.take(i + 1).drop_last() =~= bytes@.take(i as int));
        }
        if bytes[i] == 0x0Au8 {
            line += 1;
        }
        i += 1;
    }
    line
}

/// The directive that a capture of the given form stands for, in a file
/// with the given bytes.
pub open spec fn directive_of(
    kind: DirectiveKind,
    capture: (nat, Seq<char>),
    bytes: Seq<u8>,
    source_file: Seq<char>,
) -> DirectiveView {
    DirectiveView {
        kind,
        raw_reference: capture.1,
        source_file,
        line_number: line_at(bytes, capture.0 as int),
    }
}

/// The directives that a list of captures stands for, in the same order.
pub open spec fn directives_of(
    kind: DirectiveKind,
    captures: Seq<(nat, Seq<char>)>,
    bytes: Seq<u8>,
    source_file: Seq<char>,
) -> Seq<DirectiveView> {
    captures.map_values(|c: (nat, Seq<char>)| directive_of(kind, c, bytes, source_file))
}

/// The views of a list of directives.
pub open spec fn directives_view(directives: Seq<Directive>) -> Seq<DirectiveView> {
    directives.map_values(|d: Directive| d@)
}

/// The directives of a file: every match of the string pattern from left to
/// right, then every match of the data pattern from left to right.
pub open spec fn scanned(content: Seq<char>, source_file: Seq<char>) -> Result<
    Seq<DirectiveView>,
    ScanError,
> {
    let bytes = vstd::utf8::encode_utf8(content);
    if bytes.len() >= usize::MAX {
        Err(ScanError::TooLong)
    } else {
        match regex_captures(Expression::INCLUDE_STR_RGX@, content) {
            None => Err(ScanError::Pattern(DirectiveKind::Str)),
            Some(strs) => match regex_captures(Expression::INCLUDE_DATA_RGX@, content) {
                None => Err(ScanError::Pattern(DirectiveKind::Data)),
                Some(datas) => Ok(
                    directives_of(DirectiveKind::Str, strs, bytes, source_file) + directives_of(
                        DirectiveKind::Data,
                        datas,
                        bytes,
                        source_file,
                    ),
                ),
            },
        }
    }
}

/// Turns the captures of one pattern into directives of `kind` found in
/// `source_file`, whose text is `content`.
pub fn directives_from(
    kind: DirectiveKind,
    captures: &Vec<Capture>,
    content: &str,
    source_file: &str,
) -> (directives: Vec<Directive>)
    requires
        forall|i: int|
            0 <= i < captures.len() ==> (#[trigger] captures[i]).start
                <= content.spec_bytes().len(),
        forall|i: int| 0 <= i < captures.len() ==> (#[trigger] captures[i]).start < usize::MAX,
    ensures
        directives_view(directives@) == directives_of(
            kind,
            captures_view(captures@),
            content.spec_bytes(),
            source_file@,
        ),
{
    let mut directives: Vec<Directive> = Vec::new();
    let mut i: usize = 0;
    while i < captures.len()
        invariant
            i <= captures.len(),
            forall|k: int|
                0 <= k < captures.len() ==> (#[trigger] captures[k]).start
                    <= content.spec_bytes().len(),
            forall|k: int| 0 <= k < captures.len() ==> (#[trigger] captures[k]).start < usize::MAX,
            directives_view(directives@) == directives_of(
                kind,
                captures_view(captures@.take(i as int)),
                content.spec_bytes(),
                source_file@,
            ),
        decreases captures.len() - i,
    {
        let capture = &captures[i];
        let directive = Directive {
            kind,
            raw_reference: capture.reference.clone(),
            source_file: source_file.to_owned(),
            line_number: line_number(content, capture.start),
        };
        proof {
            let before = captures@.take(i as int);
            let now = captures@.take(i + 1);
            assert(now =~= before.push(captures@[i as int]));
            assert(captures_view(now) =~= captures_view(before).push(captures@[i as int]@));
            assert(directives_of(kind, captures_view(now), content.spec_bytes(), source_file@)
                =~= directives_of(
                kind,
                captures_view(before),
                content.spec_bytes(),
                source_file@,
            ).push(directive@));
            assert(directives_view(directives@.push(directive)) =~= directives_view(
                directives@,
            ).push(directive@));
        }
        directives.push(directive);
        i += 1;
    }
    proof {
        assert(captures@.take(captures.len() as int) =~= captures@);
    }
    directives
}

/// Finds the directives in `content`, the text of `source_file`: first the
/// string form, then the data form, each from left to right. Fails where a
/// pattern cannot be applied, or where the text is too long to count its
/// lines.
pub fn scan(content: &str, source_file: &str) -> (found: Result<Vec<Directive>, ScanError>)
    ensures
        match found {
            Ok(directives) => scanned(content@, source_file@) == Ok::<
                Seq<DirectiveView>,
                ScanError,
            >(directives_view(directives@)),
            Err(error) => scanned(content@, source_file@) == Err::<Seq<DirectiveView>, ScanError>(
                error,
            ),
        },
{
    if content.as_bytes().len() == usize::MAX {
        return Err(ScanError::TooLong);
    }
    let strs = match find_captures(Expression::INCLUDE_STR_RGX, content) {
        Some(captures) => captures,
        None => { return Err(ScanError::Pattern(DirectiveKind::Str)); },
    };
    let datas = match find_captures(Expression::INCLUDE_DATA_RGX, content) {
        Some(captures) => captures,
        None => { return Err(ScanError::Pattern(DirectiveKind::Data)); },
    };
    let mut directives = directives_from(DirectiveKind::Str, &strs, content, source_file);
    let mut more = directives_from(DirectiveKind::Data, &datas, content, source_file);
    proof {
        assert(directives_view(directives@ + more@) =~= directives_view(directives@)
            + directives_view(more@));
    }
    directives.append(&mut more);
    Ok(directives)
}

} // verus!
