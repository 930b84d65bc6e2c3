//! What a PDF is found to be worth.
use super::layout::BlockView;
use super::{
    column_pages, conversion_problem, image_pages, judged, reported, stride, text_pages, Concern, Page,
    VerdictView,
};
use vstd::prelude::*;
use vstd::utf8::encode_utf8;

verus! {

broadcast use vstd::string::group_string_axioms;

/// A page counts as text when it has some hundred bytes of it, and as a picture only when
/// it has not; only a page of text counts as one in columns.
pub proof fn every_page_counts_once(pages: Seq<Page>, page: Page)
    ensures
        text_pages(pages.push(page)) == text_pages(pages) + (if page.bytes >= 120 {
            1nat
        } else {
            0
        }),
        image_pages(pages.push(page)) == image_pages(pages) + (if page.bytes < 120 && page.pictures {
            1nat
        } else {
            0
        }),
        column_pages(pages.push(page)) == column_pages(pages) + (if page.bytes >= 120
            && page.columns {
            1nat
        } else {
            0
        }),
        text_pages(Seq::empty()) == 0,
        image_pages(Seq::empty()) == 0,
        column_pages(Seq::empty()) == 0,
{
    assert(pages.push(page).drop_last() =~= pages);
}

/// A protected PDF is never converted, whatever its pages show.
pub proof fn a_protected_pdf_is_refused(pages: nat, outline: bool, sampled: Seq<Page>)
    ensures
        reported(pages, true, outline, sampled).verdict == VerdictView::Impossible(
            Concern::Protected,
        ),
{
}

/// What there is no text in cannot be converted, and it is said whether it is pictures.
/// Text throughout, with chapters and in one manner of columns, converts well. Anything
/// else is asked about, for each reason that there is and no other.
pub proof fn a_pdf_is_judged_by_its_pages(
    sampled: nat,
    texts: nat,
    images: nat,
    columns: nat,
    outline: bool,
)
    ensures
        ({
            let verdict = judged(sampled, texts, images, columns, outline);
            let scanned = 100 * texts < 60 * sampled;
            let mixed = 100 * columns >= 15 * texts && 100 * columns < 85 * texts;
            &&& texts == 0 && images > 0 ==> verdict == VerdictView::Impossible(Concern::NoText)
            &&& texts == 0 && images == 0 ==> verdict == VerdictView::Impossible(
                Concern::NothingFound,
            )
            &&& texts > 0 ==> (verdict is Good <==> !scanned && !mixed && outline)
            &&& texts > 0 && !(verdict is Good) ==> verdict is Poor && {
                let reasons = verdict->Poor_0;
                &&& reasons.contains(Concern::MostlyScanned) <==> scanned
                &&& reasons.contains(Concern::MixedColumns) <==> mixed
                &&& reasons.contains(Concern::NoChapters) <==> !outline
                &&& forall|i: int|
                    0 <= i < reasons.len() ==> #[trigger] reasons[i] == Concern::MostlyScanned
                        || reasons[i] == Concern::MixedColumns || reasons[i] == Concern::NoChapters
            }
        }),
{
    let scanned: Seq<Concern> = if 5 * texts < 3 * sampled {
        seq![Concern::MostlyScanned]
    } else {
        Seq::empty()
    };
    let mixed: Seq<Concern> = if 20 * columns >= 3 * texts && 20 * columns < 17 * texts {
        seq![Concern::MixedColumns]
    } else {
        Seq::empty()
    };
    let bare: Seq<Concern> = if !outline {
        seq![Concern::NoChapters]
    } else {
        Seq::empty()
    };
    let all = scanned + mixed + bare;
    assert(super::doubts(sampled, texts, columns, outline) == all);
    if scanned.len() > 0 {
        assert(all[0] == Concern::MostlyScanned);
    }
    if mixed.len() > 0 {
        assert(all[scanned.len() as int] == Concern::MixedColumns);
    }
    if bare.len() > 0 {
        assert(all[all.len() - 1] == Concern::NoChapters);
    }
}

/// A PDF that is not past converting, and in which a paragraph of some length was read,
/// is converted; without one it is not.
pub proof fn what_can_be_read_is_converted(verdict: VerdictView, blocks: Seq<BlockView>)
    ensures
        conversion_problem(verdict, blocks) is None <==> !(verdict is Impossible) && exists|i: int|
            0 <= i < blocks.len() && (#[trigger] blocks[i] matches BlockView::Paragraph(s)
                && encode_utf8(s).len() > 40),
{
    if exists|i: int|
        0 <= i < blocks.len() && (#[trigger] blocks[i] matches BlockView::Paragraph(s)
            && encode_utf8(s).len() > 40) {
        let i = choose|i: int|
            0 <= i < blocks.len() && (#[trigger] blocks[i] matches BlockView::Paragraph(s)
                && encode_utf8(s).len() > 40);
        assert(blocks[i] is Paragraph && encode_utf8(blocks[i]->Paragraph_0).len() > 40);
    }
}

/// A long document is looked at all through, in no more than forty places; every page of
/// a short one is.
pub proof fn a_document_is_looked_at_all_through(pages: nat)
    ensures
        stride(pages) >= 1,
        40 * stride(pages) >= pages,
        pages > 0 ==> 40 * (stride(pages) - 1) < pages,
        pages <= 40 ==> stride(pages) == 1,
{
}

} // verus!
