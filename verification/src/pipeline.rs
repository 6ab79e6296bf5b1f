//! The indexing walk's decisions: which directory entries are skipped, which
//! extraction strategy an extension selects, and how extracted text pieces
//! are joined. The walk itself, file I/O and the extraction collaborators
//! stay outside the library.
use vstd::prelude::*;

verus! {

/// How a file's text is extracted, keyed by its extension.
#[derive(PartialEq, Eq, Structural, Debug)]
pub enum FileFormat {
    /// Character data of an XML or XHTML document.
    Xml,
    /// Plain text, taken as is.
    Text,
    /// Text rendered out of a PDF, page by page.
    Pdf,
    /// No strategy: the file is skipped.
    Unsupported,
}

/// Entries whose name begins with the hidden-file marker are skipped.
pub open spec fn hidden_name(name: Seq<char>) -> bool {
    name.len() > 0 && name[0] == '.'
}

pub fn is_hidden_name(name: &Vec<char>) -> (r: bool)
    ensures
        r == hidden_name(name@),
{
    name.len() > 0 && name[0] == '.'
}

/// The extraction strategy for a (lowercase) file extension.
pub open spec fn format_spec(ext: Seq<char>) -> FileFormat {
    if ext == seq!['x', 'h', 't', 'm', 'l'] || ext == seq!['x', 'm', 'l'] {
        FileFormat::Xml
    } else if ext == seq!['t', 'x', 't'] || ext == seq!['m', 'd'] {
        FileFormat::Text
    } else if ext == seq!['p', 'd', 'f'] {
        FileFormat::Pdf
    } else {
        FileFormat::Unsupported
    }
}

pub fn format_of_extension(ext: &Vec<char>) -> (r: FileFormat)
    ensures
        r == format_spec(ext@),
{
    if crate::stemmer::eq5(ext, 'x', 'h', 't', 'm', 'l') {
        FileFormat::Xml
    } else if crate::stemmer::eq3(ext, 'x', 'm', 'l') {
        FileFormat::Xml
    } else if crate::stemmer::eq3(ext, 't', 'x', 't') {
        FileFormat::Text
    } else if ext.len() == 2 && ext[0] == 'm' && ext[1] == 'd' {
        proof {
            assert(ext@ =~= seq!['m', 'd']);
        }
        FileFormat::Text
    } else if crate::stemmer::eq3(ext, 'p', 'd', 'f') {
        FileFormat::Pdf
    } else {
        proof {
            if ext@ == seq!['m', 'd'] {
                assert(ext@.len() == 2 && ext@[0] == 'm' && ext@[1] == 'd');
            }
        }
        FileFormat::Unsupported
    }
}

/// Extracted pieces joined with one separating space after each piece, as
/// the page and character-data extractors concatenate their output.
pub open spec fn joined(chunks: Seq<Seq<char>>) -> Seq<char>
    decreases chunks.len(),
{
    if chunks.len() == 0 {
        Seq::empty()
    } else {
        joined(chunks.drop_last()) + chunks.last() + seq![' ']
    }
}

pub fn join_chunks(chunks: &Vec<Vec<char>>) -> (r: Vec<char>)
    ensures
        r@ == joined(crate::chars::seq_views(chunks@)),
{
    let ghost cv = crate::chars::seq_views(chunks@);
    let mut out: Vec<char> = Vec::new();
    let mut i: usize = 0;
    proof {
        assert(cv.take(0) =~= Seq::<Seq<char>>::empty());
        assert(out@ =~= joined(cv.take(0)));
    }
    while i < chunks.len()
        invariant
            0 <= i <= chunks@.len(),
            cv == crate::chars::seq_views(chunks@),
            out@ == joined(cv.take(i as int)),
        decreases chunks@.len() - i,
    {
        let c = &chunks[i];
        let mut j: usize = 0;
        while j < c.len()
            invariant
                0 <= j <= c@.len(),
                out@ == joined(cv.take(i as int)) + c@.take(j as int),
                0 <= i < chunks@.len(),
                cv == crate::chars::seq_views(chunks@),
                c@ == chunks@[i as int]@,
            decreases c@.len() - j,
        {
            out.push(c[j]);
            proof {
                assert(c@.take(j + 1 as int) =~= c@.take(j as int).push(c@[j as int]));
                assert(joined(cv.take(i as int)) + c@.take(j + 1 as int) =~= (joined(cv.take(
                    i as int,
                )) + c@.take(j as int)).push(c@[j as int]));
            }
            j += 1;
        }
        out.push(' ');
        proof {
            assert(cv.take(i + 1 as int).drop_last() =~= cv.take(i as int));
            assert(cv.take(i + 1 as int).last() == cv[i as int]);
            assert(c@.take(c@.len() as int) =~= c@);
            assert(out@ =~= joined(cv.take(i as int)) + cv[i as int] + seq![' ']);
        }
        i += 1;
    }
    proof {
        assert(cv.take(chunks@.len() as int) =~= cv);
    }
    out
}

} // verus!
