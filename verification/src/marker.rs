//! The marker vocabulary: the banners that open the sections of a
//! document, and the sentinel that stands for its end.

use crate::text::occurs_at;
use vstd::prelude::*;
use vstd::string::*;

verus! {

/// Opens the title section.
pub const TITLE_BEGIN: &'static str = "████████████████████████████████████████
██████████████   TITLE   ███████████████
████████████████████████████████████████";

/// Opens the content section.
pub const CONTENT_BEGIN: &'static str = "████████████████████████████████████████
██████████████  CONTENT  ███████████████
████████████████████████████████████████";

/// Opens the date section.
pub const DATE_BEGIN: &'static str = "████████████████████████████████████████
██████████████   DATE    ███████████████
████████████████████████████████████████";

/// As a section's end, stands for the end of the document.
pub const END: &'static str = "\n";

/// The sections of a document, each named after its banner.
#[derive(Debug, Clone, Copy, PartialEq, Eq)]
pub enum Marker {
    Title,
    Content,
    Date,
}

/// A row of block glyphs.
pub open spec fn bar(width: nat) -> Seq<char> {
    Seq::new(width, |i: int| '█')
}

/// The shape of a banner: a full row, a row with the label in it, and a
/// full row again, each 40 characters wide.
pub open spec fn banner_of(label: Seq<char>) -> Seq<char> {
    bar(40) + seq!['\n'] + bar(14) + label + bar(15) + seq!['\n'] + bar(40)
}

/// The label of the title banner.
pub open spec fn title_label() -> Seq<char> {
    seq![' ', ' ', ' ', 'T', 'I', 'T', 'L', 'E', ' ', ' ', ' ']
}

/// The label of the content banner.
pub open spec fn content_label() -> Seq<char> {
    seq![' ', ' ', 'C', 'O', 'N', 'T', 'E', 'N', 'T', ' ', ' ']
}

/// The label of the date banner.
pub open spec fn date_label() -> Seq<char> {
    seq![' ', ' ', ' ', 'D', 'A', 'T', 'E', ' ', ' ', ' ', ' ']
}

/// The length of every banner.
pub open spec fn banner_len() -> int {
    122
}

/// What keeps a banner apart from the text around it: its length, and
/// that it holds a line break after each of its first two rows and
/// nowhere else.
pub open spec fn is_banner(text: Seq<char>) -> bool {
    &&& text.len() == banner_len()
    &&& forall|i: int| 0 <= i < banner_len() ==> (#[trigger] text[i] == '\n' <==> i == 40 || i == 81)
}

/// Wherever a banner stands in a text, it neither begins nor ends with a
/// line break and holds no blank line: it lies before a pair of line
/// breaks or after it.
pub proof fn lemma_banner_apart(text: Seq<char>, banner: Seq<char>, at: int, blank: int)
    requires
        is_banner(banner),
        occurs_at(text, banner, at),
        0 <= blank,
        blank + 1 < text.len(),
        text[blank] == '\n',
        text[blank + 1] == '\n',
    ensures
        at + banner_len() <= blank || blank + 2 <= at,
{
    let part = text.subrange(at, at + banner_len());
    if at <= blank < at + banner_len() {
        assert(part[blank - at] == '\n');
        if blank + 1 < at + banner_len() {
            assert(part[blank + 1 - at] == '\n');
        }
    } else if at == blank + 1 {
        assert(part[0] == '\n');
    }
}

/// The title banner has the shape of a banner, with its label.
pub proof fn lemma_title_banner()
    ensures
        TITLE_BEGIN@ == banner_of(title_label()),
        is_banner(TITLE_BEGIN@),
{
    reveal_strlit("████████████████████████████████████████
██████████████   TITLE   ███████████████
████████████████████████████████████████");
    assert(TITLE_BEGIN@ =~= banner_of(title_label()));
}

/// The content banner has the shape of a banner, with its label.
pub proof fn lemma_content_banner()
    ensures
        CONTENT_BEGIN@ == banner_of(content_label()),
        is_banner(CONTENT_BEGIN@),
{
    reveal_strlit("████████████████████████████████████████
██████████████  CONTENT  ███████████████
████████████████████████████████████████");
    assert(CONTENT_BEGIN@ =~= banner_of(content_label()));
}

/// The date banner has the shape of a banner, with its label.
pub proof fn lemma_date_banner()
    ensures
        DATE_BEGIN@ == banner_of(date_label()),
        is_banner(DATE_BEGIN@),
{
    reveal_strlit("████████████████████████████████████████
██████████████   DATE    ███████████████
████████████████████████████████████████");
    assert(DATE_BEGIN@ =~= banner_of(date_label()));
}

/// The sentinel is one line break.
pub proof fn lemma_end_sentinel()
    ensures
        END@ == seq!['\n'],
{
    reveal_strlit("\n");
    assert(END@ =~= seq!['\n']);
}

} // verus!
