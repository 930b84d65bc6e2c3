//! What turning lines back into prose keeps.
use super::{
    all_ends, broken, collapsed, dots, fields, fields_run_on, flowed, from_word, in_columns,
    in_word, is_furniture, key_of, line_uses, mostly_full, occurrences, occurrences_are_found,
    page_ends, run_on, small, tidied, undigited, uses, word_of, BlockView, ItemView, LineView,
};
use crate::text;
use vstd::prelude::*;

verus! {

broadcast use vstd::string::group_string_axioms;

/// Texts that meet at whitespace keep their words apart.
proof fn words_apart(a: Seq<char>, b: Seq<char>)
    requires
        a.len() == 0 || b.len() == 0 || text::white(a.last()) || text::white(b[0]),
    ensures
        fields(a + b) == fields(a) + fields(b),
    decreases b.len(),
{
    let s = a + b;
    if b.len() == 0 {
        assert(s =~= a);
        assert(fields(a) + fields(b) =~= fields(a));
    } else if a.len() == 0 {
        assert(s =~= b);
        assert(fields(a) + fields(b) =~= fields(b));
    } else {
        let c = b.drop_last();
        assert(s.drop_last() =~= a + c);
        words_apart(a, c);
        let front = fields(a);
        let before = fields(c);
        if text::white(b.last()) {
        } else if b.len() >= 2 && !text::white(b[b.len() - 2]) {
            assert(s[s.len() - 2] == b[b.len() - 2]);
            fields_run_on(c);
            assert((front + before).drop_last() =~= front + before.drop_last());
            assert((front + before).last() == before.last());
            assert(fields(s) =~= front + fields(b));
        } else {
            if b.len() >= 2 {
                assert(s[s.len() - 2] == b[b.len() - 2]);
            } else {
                assert(s[s.len() - 2] == a.last());
            }
            assert(fields(s) =~= front + fields(b));
        }
    }
}

/// Texts that meet without whitespace share a word.
proof fn words_joined(a: Seq<char>, b: Seq<char>)
    requires
        a.len() > 0,
        b.len() > 0,
        !text::white(a.last()),
        !text::white(b[0]),
    ensures
        fields(a).len() > 0,
        fields(b).len() > 0,
        fields(a + b) == fields(a).drop_last().push(fields(a).last() + fields(b)[0]) + fields(
            b,
        ).skip(1),
    decreases b.len(),
{
    let s = a + b;
    fields_run_on(a);
    let front = fields(a);
    if b.len() == 1 {
        assert(s.drop_last() =~= a);
        assert(s[s.len() - 2] == a.last());
        assert(b.drop_last() =~= Seq::<char>::empty());
        assert(fields(b.drop_last()) =~= Seq::<Seq<char>>::empty());
        assert(fields(b) =~= seq![seq![b[0]]]);
        assert(front.last() + seq![b[0]] =~= front.last().push(b[0]));
        assert(fields(s) =~= front.drop_last().push(front.last() + fields(b)[0]) + fields(b).skip(
            1,
        ));
    } else {
        let c = b.drop_last();
        assert(s.drop_last() =~= a + c);
        words_joined(a, c);
        let rest = fields(c);
        let glued = front.drop_last().push(front.last() + rest[0]) + rest.skip(1);
        assert(s[s.len() - 2] == b[b.len() - 2]);
        if text::white(b.last()) {
        } else if !text::white(b[b.len() - 2]) {
            if rest.len() == 1 {
                assert(glued.last() == front.last() + rest[0]);
                assert((front.last() + rest[0]).push(b.last()) =~= front.last() + rest[0].push(
                    b.last(),
                ));
            } else {
                assert(glued.last() == rest.last());
            }
            assert(fields(s) =~= front.drop_last().push(front.last() + fields(b)[0]) + fields(
                b,
            ).skip(1));
        } else {
            assert(fields(s) =~= front.drop_last().push(front.last() + fields(b)[0]) + fields(
                b,
            ).skip(1));
        }
    }
}

/// A line put behind a paragraph brings its words and leaves the others as they are:
/// no word of one line runs into a word of the next.
pub proof fn words_of_two_lines_stay_apart(
    so_far: Seq<char>,
    line: Seq<char>,
    words: Seq<Seq<char>>,
)
    requires
        so_far.len() > 0 ==> so_far.last() != '-',
    ensures
        fields(run_on(so_far, line, words)) == fields(so_far) + fields(tidied(line)),
{
    reveal_strlit(" ");
    let gap = " "@;
    assert(fields(gap) =~= Seq::<Seq<char>>::empty()) by {
        reveal_with_fuel(fields, 3);
        assert(gap.drop_last() =~= Seq::<char>::empty());
    }
    words_apart(so_far, gap);
    assert(fields(so_far) + fields(gap) =~= fields(so_far));
    words_apart(so_far + gap, tidied(line));
}

/// A word that was broken across two lines is one word again. It loses its hyphen
/// where the document uses no word with one, and keeps it where the document writes
/// the word with it elsewhere.
pub proof fn broken_words_are_whole_again(
    stem: Seq<char>,
    line: Seq<char>,
    words: Seq<Seq<char>>,
)
    requires
        stem.len() > 0,
        !text::white(stem.last()),
        line.len() > 0,
        small(line[0]),
        tidied(line).len() > 0,
        !text::white(tidied(line)[0]),
        fields(line).len() > 0,
    ensures
        ({
            let first = fields(stem).last();
            let second = fields(tidied(line))[0];
            let after = fields(run_on(stem.push('-'), line, words));
            let used = word_of(first) + "-"@ + word_of(fields(line)[0]);
            let rest = fields(tidied(line)).skip(1);
            &&& !words.contains(used) ==> after == fields(stem).drop_last().push(first + second)
                + rest
            &&& words.contains(used) && word_of(first).len() > 0 && word_of(fields(line)[0]).len()
                > 0 ==> after == fields(stem).drop_last().push(first + "-"@ + second) + rest
        }),
{
    let so_far = stem.push('-');
    let tail = tidied(line);
    reveal_strlit("-");
    assert(so_far.drop_last() =~= stem);
    fields_run_on(stem);
    words_joined(stem, tail);
    words_joined(so_far, tail);
    assert(fields(so_far) == fields(stem).drop_last().push(fields(stem).last().push('-')));
    assert(fields(so_far).drop_last() =~= fields(stem).drop_last());
    assert(fields(stem).last().push('-') =~= fields(stem).last() + "-"@);
}

/// A text without its whitespace and its hyphens.
pub open spec fn letters(s: Seq<char>) -> Seq<char>
    decreases s.len(),
{
    if s.len() == 0 {
        s
    } else if text::white(s.last()) || s.last() == '-' {
        letters(s.drop_last())
    } else {
        letters(s.drop_last()).push(s.last())
    }
}

proof fn letters_joined(a: Seq<char>, b: Seq<char>)
    ensures
        letters(a + b) == letters(a) + letters(b),
    decreases b.len(),
{
    if b.len() == 0 {
        assert(a + b =~= a);
        assert(letters(a) + letters(b) =~= letters(a));
    } else {
        letters_joined(a, b.drop_last());
        assert((a + b).drop_last() =~= a + b.drop_last());
        assert(letters(a + b) =~= letters(a) + letters(b));
    }
}

/// Whatever the line, the paragraph loses no letter and gains none but the line's.
pub proof fn no_letter_is_lost(so_far: Seq<char>, line: Seq<char>, words: Seq<Seq<char>>)
    ensures
        letters(run_on(so_far, line, words)) == letters(so_far) + letters(tidied(line)),
{
    reveal_strlit(" ");
    let gap = " "@;
    assert(gap.drop_last() =~= Seq::<char>::empty());
    assert(letters(gap) =~= Seq::<char>::empty()) by {
        reveal_with_fuel(letters, 2);
    }
    letters_joined(so_far, gap);
    letters_joined(so_far + gap, tidied(line));
    letters_joined(so_far, tidied(line));
    assert(letters(so_far) + letters(gap) =~= letters(so_far));
    if so_far.len() > 0 && so_far.last() == '-' {
        letters_joined(so_far.drop_last(), tidied(line));
    }
}

/// What a line does to the blocks before it. A large one is a heading of its own,
/// unless it is drawn with leader dots. Any other starts a paragraph at the start, behind
/// a picture or a large line, when it is set in or apart, and behind a line that ends
/// short where lines are justified. Otherwise it goes on with the last paragraph, and
/// no other block changes.
pub proof fn a_line_starts_or_goes_on(
    flow: Seq<ItemView>,
    line: LineView,
    justified: bool,
    words: Seq<Seq<char>>,
)
    ensures
        ({
            let before = flowed(flow, justified, words).0;
            let after = flowed(flow.push(ItemView::Line(line)), justified, words).0;
            let title = line.large && !text::within(line.text, "...."@);
            let fresh = line.large || line.indented || line.apart || flow.len() == 0 || match flow.last() {
                ItemView::Figure(_) => true,
                ItemView::Line(last) => last.large || (justified && last.short),
            };
            &&& title ==> after == before.push(BlockView::Heading(tidied(line.text)))
            &&& !title && fresh ==> after == before.push(BlockView::Paragraph(tidied(line.text)))
            &&& !fresh ==> {
                &&& before.len() > 0
                &&& before.last() is Paragraph
                &&& after == before.drop_last().push(
                    BlockView::Paragraph(run_on(before.last()->Paragraph_0, line.text, words)),
                )
            }
        }),
{
    assert(flow.push(ItemView::Line(line)).drop_last() =~= flow);
    if flow.len() > 0 {
        if let ItemView::Line(last) = flow.last() {
            assert(flowed(flow, justified, words).1 == Some(last));
        }
    }
}

/// A picture stands behind the blocks before it, and changes none of them.
pub proof fn a_picture_stands_alone(
    flow: Seq<ItemView>,
    picture: usize,
    justified: bool,
    words: Seq<Seq<char>>,
)
    ensures
        flowed(flow.push(ItemView::Figure(picture)), justified, words).0 == flowed(
            flow,
            justified,
            words,
        ).0.push(BlockView::Figure(picture)),
{
    assert(flow.push(ItemView::Figure(picture)).drop_last() =~= flow);
}

/// The words of a flow, line by line.
pub open spec fn flow_words(flow: Seq<ItemView>) -> Seq<Seq<char>>
    decreases flow.len(),
{
    if flow.len() == 0 {
        Seq::empty()
    } else {
        match flow.last() {
            ItemView::Line(line) => flow_words(flow.drop_last()) + fields(tidied(line.text)),
            ItemView::Figure(_) => flow_words(flow.drop_last()),
        }
    }
}

/// The words of some blocks, one block behind the other.
pub open spec fn block_words(blocks: Seq<BlockView>) -> Seq<Seq<char>>
    decreases blocks.len(),
{
    if blocks.len() == 0 {
        Seq::empty()
    } else {
        match blocks.last() {
            BlockView::Heading(s) => block_words(blocks.drop_last()) + fields(s),
            BlockView::Paragraph(s) => block_words(blocks.drop_last()) + fields(s),
            BlockView::Figure(_) => block_words(blocks.drop_last()),
        }
    }
}

/// Where no line ends in a hyphen, a book has the words of its lines, each as it was
/// and in the same order.
pub proof fn a_book_has_the_words_of_its_lines(
    flow: Seq<ItemView>,
    justified: bool,
    words: Seq<Seq<char>>,
)
    requires
        forall|i: int|
            0 <= i < flow.len() ==> (#[trigger] flow[i] matches ItemView::Line(line) ==> !broken(
                tidied(line.text),
            )),
    ensures
        block_words(flowed(flow, justified, words).0) == flow_words(flow),
        forall|i: int|
            0 <= i < flowed(flow, justified, words).0.len() ==> (#[trigger] flowed(
                flow,
                justified,
                words,
            ).0[i] matches BlockView::Paragraph(s) ==> !broken(s)),
    decreases flow.len(),
{
    if flow.len() > 0 {
        let rest = flow.drop_last();
        assert forall|i: int| 0 <= i < rest.len() implies (#[trigger] rest[i] matches ItemView::Line(
            line,
        ) ==> !broken(tidied(line.text))) by {
            assert(rest[i] == flow[i]);
        }
        a_book_has_the_words_of_its_lines(rest, justified, words);
        let before = flowed(rest, justified, words).0;
        let after = flowed(flow, justified, words).0;
        match flow.last() {
            ItemView::Figure(i) => {
                assert(after.drop_last() =~= before);
            },
            ItemView::Line(line) => {
                assert(flow[flow.len() - 1] == ItemView::Line(line));
                if after.len() == before.len() {
                    let so_far = before.last()->Paragraph_0;
                    assert(before[before.len() - 1] == BlockView::Paragraph(so_far));
                    words_of_two_lines_stay_apart(so_far, line.text, words);
                    reveal_strlit(" ");
                    assert(after.drop_last() =~= before.drop_last());
                    assert(block_words(before.drop_last()) + (fields(so_far) + fields(
                        tidied(line.text),
                    )) =~= block_words(before.drop_last()) + fields(so_far) + fields(
                        tidied(line.text),
                    ));
                } else {
                    assert(after.drop_last() =~= before);
                }
            },
        }
        assert forall|i: int| 0 <= i < after.len() implies (#[trigger] after[i] matches BlockView::Paragraph(
            s,
        ) ==> !broken(s)) by {
            if i < after.len() - 1 {
                assert(after[i] == before[i]);
            } else {
                reveal_strlit(" ");
            }
        }
    }
}

/// A text without whitespace, full stops and the sign that stands for several.
pub open spec fn print(s: Seq<char>) -> Seq<char>
    decreases s.len(),
{
    if s.len() == 0 {
        s
    } else if text::white(s.last()) || s.last() == '.' || s.last() == '…' {
        print(s.drop_last())
    } else {
        print(s.drop_last()).push(s.last())
    }
}

proof fn print_joined(a: Seq<char>, b: Seq<char>)
    ensures
        print(a + b) == print(a) + print(b),
    decreases b.len(),
{
    if b.len() == 0 {
        assert(a + b =~= a);
        assert(print(a) + print(b) =~= print(a));
    } else {
        print_joined(a, b.drop_last());
        assert((a + b).drop_last() =~= a + b.drop_last());
        assert(print(a + b) =~= print(a) + print(b));
    }
}

proof fn nothing_printed(s: Seq<char>)
    requires
        forall|i: int|
            0 <= i < s.len() ==> text::white(#[trigger] s[i]) || s[i] == '.' || s[i] == '…',
    ensures
        print(s) == Seq::<char>::empty(),
    decreases s.len(),
{
    if s.len() > 0 {
        assert(text::white(s[s.len() - 1]) || s[s.len() - 1] == '.' || s[s.len() - 1] == '…');
        nothing_printed(s.drop_last());
    }
}

proof fn collapsing_keeps_print(s: Seq<char>)
    ensures
        print(collapsed(s).0) == print(s),
    decreases s.len(),
{
    if s.len() > 0 {
        collapsing_keeps_print(s.drop_last());
        let (out, n) = collapsed(s.drop_last());
        if s.last() != '.' {
            reveal_strlit(" … ");
            let gap = if n > 3 {
                " … "@
            } else {
                dots(n)
            };
            nothing_printed(gap);
            print_joined(out, gap);
            assert(print(out) + Seq::<char>::empty() =~= print(out));
            assert((out + gap).push(s.last()).drop_last() =~= out + gap);
        }
    }
}

/// Tidying a line takes nothing of it but leader dots and the whitespace around them,
/// and leaves a line without leader dots as it is.
pub proof fn tidying_keeps_the_print(s: Seq<char>)
    ensures
        print(tidied(s)) == print(s),
        !text::within(s, "...."@) ==> tidied(s) == s,
{
    if text::within(s, "...."@) {
        let (out, n) = collapsed(s);
        collapsing_keeps_print(s);
        reveal_strlit(" …");
        nothing_printed(" …"@);
        print_joined(out, " …"@);
        assert(print(out) + Seq::<char>::empty() =~= print(out));
        let whole = if n > 3 {
            out + " …"@
        } else {
            out
        };
        trimming_keeps_the_print(whole);
    }
}

proof fn trimming_the_start_keeps_the_print(s: Seq<char>)
    ensures
        print(text::trimmed_start(s)) == print(s),
    decreases s.len(),
{
    if s.len() > 0 && text::white(s[0]) {
        trimming_the_start_keeps_the_print(s.drop_first());
        let head = seq![s[0]];
        nothing_printed(head);
        print_joined(head, s.drop_first());
        assert(head + s.drop_first() =~= s);
        assert(Seq::<char>::empty() + print(s.drop_first()) =~= print(s.drop_first()));
    }
}

proof fn trimming_the_end_keeps_the_print(s: Seq<char>)
    ensures
        print(text::trimmed_end(s)) == print(s),
    decreases s.len(),
{
    if s.len() > 0 && text::white(s.last()) {
        trimming_the_end_keeps_the_print(s.drop_last());
    }
}

proof fn trimming_keeps_the_print(s: Seq<char>)
    ensures
        print(text::trimmed(s)) == print(s),
{
    trimming_the_start_keeps_the_print(s);
    trimming_the_end_keeps_the_print(text::trimmed_start(s));
}

/// Whether four full stops stand in a row.
spec fn led(s: Seq<char>) -> bool {
    exists|i: int|
        0 <= i && i + 4 <= s.len() && #[trigger] s[i] == '.' && s[i + 1] == '.' && s[i + 2] == '.'
            && s[i + 3] == '.'
}

proof fn collapsing_leaves_no_leader(s: Seq<char>)
    ensures
        !led(collapsed(s).0),
        collapsed(s).0.len() > 0 ==> collapsed(s).0.last() != '.',
    decreases s.len(),
{
    if s.len() > 0 {
        collapsing_leaves_no_leader(s.drop_last());
        let (out, n) = collapsed(s.drop_last());
        if s.last() != '.' {
            reveal_strlit(" … ");
            let gap = if n > 3 {
                " … "@
            } else {
                dots(n)
            };
            let after = (out + gap).push(s.last());
            if led(after) {
                let i = choose|i: int|
                    0 <= i && i + 4 <= after.len() && #[trigger] after[i] == '.' && after[i + 1]
                        == '.' && after[i + 2] == '.' && after[i + 3] == '.';
                if i + 4 <= out.len() {
                    assert(out[i] == '.' && out[i + 1] == '.' && out[i + 2] == '.' && out[i + 3]
                        == '.');
                } else if i < out.len() {
                    assert(out.last() == after[out.len() - 1]);
                } else {
                    assert(i + 4 > after.len() - 1);
                }
            }
        }
    }
}

proof fn trimming_is_a_part(s: Seq<char>) -> (k: int)
    ensures
        0 <= k,
        k + text::trimmed(s).len() <= s.len(),
        text::trimmed(s) == s.subrange(k, k + text::trimmed(s).len()),
{
    let k = start_is_a_part(s);
    end_is_a_part(text::trimmed_start(s));
    assert(text::trimmed(s) =~= s.subrange(k, k + text::trimmed(s).len()));
    k
}

proof fn start_is_a_part(s: Seq<char>) -> (k: int)
    ensures
        0 <= k <= s.len(),
        text::trimmed_start(s) == s.skip(k),
    decreases s.len(),
{
    if s.len() > 0 && text::white(s[0]) {
        let k = start_is_a_part(s.drop_first());
        assert(s.drop_first().skip(k) =~= s.skip(k + 1));
        k + 1
    } else {
        assert(s.skip(0) =~= s);
        0
    }
}

proof fn end_is_a_part(s: Seq<char>)
    ensures
        text::trimmed_end(s).len() <= s.len(),
        text::trimmed_end(s) == s.take(text::trimmed_end(s).len() as int),
    decreases s.len(),
{
    if s.len() > 0 && text::white(s.last()) {
        end_is_a_part(s.drop_last());
        let n = text::trimmed_end(s).len() as int;
        assert(s.drop_last().take(n) =~= s.take(n));
    } else {
        assert(s.take(s.len() as int) =~= s);
    }
}

/// No leader dots are left in a line that was tidied.
pub proof fn tidying_leaves_no_leader(s: Seq<char>)
    ensures
        !text::within(tidied(s), "...."@),
{
    reveal_strlit("....");
    if text::within(s, "...."@) {
        collapsing_leaves_no_leader(s);
        let (out, n) = collapsed(s);
        reveal_strlit(" …");
        let whole = if n > 3 {
            out + " …"@
        } else {
            out
        };
        let t = tidied(s);
        let k = trimming_is_a_part(whole);
        if text::within(t, "...."@) {
            let i = choose|i: int| text::at(t, "...."@, i);
            let part = t.subrange(i, i + 4);
            assert(part[0] == '.' && part[1] == '.' && part[2] == '.' && part[3] == '.');
            assert(t[i] == '.' && t[i + 1] == '.' && t[i + 2] == '.' && t[i + 3] == '.');
            assert(whole[k + i] == '.' && whole[k + i + 1] == '.' && whole[k + i + 2] == '.'
                && whole[k + i + 3] == '.');
            assert(out[k + i] == '.' && out[k + i + 1] == '.' && out[k + i + 2] == '.' && out[k + i
                + 3] == '.');
            assert(led(out));
        }
    }
}

proof fn counted_apart(a: Seq<Seq<char>>, b: Seq<Seq<char>>, k: Seq<char>)
    ensures
        occurrences(a + b, k) == occurrences(a, k) + occurrences(b, k),
    decreases b.len(),
{
    if b.len() == 0 {
        assert(a + b =~= a);
    } else {
        counted_apart(a, b.drop_last(), k);
        assert((a + b).drop_last() =~= a + b.drop_last());
    }
}

proof fn heads_are_counted(pages: Seq<Seq<Seq<char>>>, k: Seq<char>)
    requires
        forall|i: int|
            0 <= i < pages.len() ==> (#[trigger] pages[i]).len() > 0 && key_of(pages[i][0]) == k,
    ensures
        occurrences(all_ends(pages), k) >= pages.len(),
    decreases pages.len(),
{
    if pages.len() > 0 {
        let rest = pages.drop_last();
        assert forall|i: int| 0 <= i < rest.len() implies (#[trigger] rest[i]).len() > 0 && key_of(
            rest[i][0],
        ) == k by {
            assert(rest[i] == pages[i]);
        }
        heads_are_counted(rest, k);
        let page = pages[pages.len() - 1];
        let ends = page_ends(page);
        counted_apart(all_ends(rest), ends, k);
        assert(ends[0] == k);
        if page.len() == 1 {
            assert(ends.drop_last() =~= Seq::<Seq<char>>::empty());
            assert(occurrences(ends.drop_last(), k) == 0);
        } else {
            let one = ends.drop_last();
            assert(one =~= seq![k]);
            assert(one.drop_last() =~= Seq::<Seq<char>>::empty());
            assert(occurrences(one.drop_last(), k) == 0);
            assert(occurrences(one, k) == 1);
        }
    }
}

/// A line that heads every page belongs to the paper, whatever number it carries.
pub proof fn running_heads_are_furniture(pages: Seq<Seq<Seq<char>>>, k: Seq<char>)
    requires
        pages.len() >= 2,
        forall|i: int|
            0 <= i < pages.len() ==> (#[trigger] pages[i]).len() > 0 && key_of(pages[i][0]) == k,
    ensures
        is_furniture(pages, k),
{
    heads_are_counted(pages, k);
}

proof fn ends_are_of_pages(pages: Seq<Seq<Seq<char>>>, k: Seq<char>)
    requires
        all_ends(pages).contains(k),
    ensures
        exists|i: int|
            0 <= i < pages.len() && (#[trigger] pages[i]).len() > 0 && (key_of(pages[i][0]) == k
                || key_of(pages[i].last()) == k),
    decreases pages.len(),
{
    let all = all_ends(pages);
    let at = choose|at: int| 0 <= at < all.len() && all[at] == k;
    let before = all_ends(pages.drop_last());
    let last = pages[pages.len() - 1];
    if at < before.len() {
        assert(before[at] == k);
        ends_are_of_pages(pages.drop_last(), k);
        let i = choose|i: int|
            0 <= i < pages.drop_last().len() && (#[trigger] pages.drop_last()[i]).len() > 0 && (
            key_of(pages.drop_last()[i][0]) == k || key_of(pages.drop_last()[i].last()) == k);
        assert(pages[i].len() > 0);
    } else {
        assert(page_ends(last)[at - before.len()] == k);
        assert(pages[pages.len() - 1].len() > 0);
    }
}

/// A line that no page begins or ends with belongs to the book, however often it stands
/// in it; and on one page alone, everything does.
pub proof fn body_text_is_kept(pages: Seq<Seq<Seq<char>>>, k: Seq<char>)
    requires
        k.len() > 0,
        pages.len() < 2 || forall|i: int|
            0 <= i < pages.len() && (#[trigger] pages[i]).len() > 0 ==> key_of(pages[i][0]) != k
                && key_of(pages[i].last()) != k,
    ensures
        !is_furniture(pages, k),
{
    if is_furniture(pages, k) {
        occurrences_are_found(all_ends(pages), k);
        ends_are_of_pages(pages, k);
    }
}

proof fn undigited_joined(a: Seq<char>, b: Seq<char>)
    ensures
        undigited(a + b) == undigited(a) + undigited(b),
    decreases b.len(),
{
    if b.len() == 0 {
        assert(a + b =~= a);
        assert(undigited(a) + undigited(b) =~= undigited(a));
    } else {
        undigited_joined(a, b.drop_last());
        assert((a + b).drop_last() =~= a + b.drop_last());
        assert(undigited(a + b) =~= undigited(a) + undigited(b));
    }
}

/// A number in a line does not tell it from the same line with another.
pub proof fn page_numbers_do_not_count(a: Seq<char>, c: char, b: Seq<char>)
    requires
        '0' <= c <= '9',
    ensures
        key_of(a.push(c) + b) == key_of(a + b),
{
    undigited_joined(a.push(c), b);
    undigited_joined(a, b);
    assert(a.push(c).drop_last() =~= a);
}

proof fn word_starts_behind(c: char, s: Seq<char>)
    requires
        !in_word(c),
    ensures
        from_word(seq![c] + s) == from_word(s),
{
    assert((seq![c] + s).drop_first() =~= s);
}

proof fn word_starts_the_same(s: Seq<char>, c: char)
    requires
        !in_word(c),
    ensures
        from_word(s).len() > 0 ==> from_word(s.push(c)) == from_word(s).push(c),
        from_word(s).len() == 0 ==> from_word(s.push(c)).len() == 0,
    decreases s.len(),
{
    let t = s.push(c);
    if s.len() > 0 && !in_word(s[0]) {
        word_starts_the_same(s.drop_first(), c);
        assert(t.drop_first() =~= s.drop_first().push(c));
    } else if s.len() == 0 {
        assert(t.drop_first() =~= Seq::<char>::empty());
        assert(from_word(t.drop_first()).len() == 0);
    }
}

/// A word is the same word with punctuation around it.
pub proof fn punctuation_does_not_count(s: Seq<char>, c: char)
    requires
        !text::alphanumeric(c),
        c != '-',
    ensures
        word_of(seq![c] + s) == word_of(s),
        word_of(s.push(c)) == word_of(s),
{
    word_starts_behind(c, s);
    word_starts_the_same(s, c);
    let f = from_word(s);
    if f.len() > 0 {
        assert(f.push(c).drop_last() =~= f);
    } else {
        assert(from_word(s.push(c)) =~= f);
    }
}

/// A word is the same word in capitals, as far as ASCII goes.
pub proof fn capitals_do_not_count(s: Seq<char>)
    requires
        vstd::utf8::is_ascii_chars(s),
        s.len() > 0,
        in_word(s[0]),
        in_word(s.last()),
    ensures
        word_of(s) == text::ascii_lowered(s),
{
    reveal(text::lowercase);
}

/// Every word of a line is a word that the document uses, but for what stands before a
/// break at its end; and it uses no other.
pub proof fn a_document_is_its_own_dictionary(lines: Seq<Seq<char>>, w: Seq<char>, i: int, j: int)
    requires
        0 <= i < lines.len(),
        0 <= j < fields(lines[i]).len(),
        w == word_of(fields(lines[i])[j]),
        w.len() > 0,
        lines[i].len() > 0 && lines[i].last() == '-' ==> j < fields(lines[i]).len() - 1,
    ensures
        uses(lines, w, lines.len() as int),
{
    assert(line_uses(lines[i], w));
}

/// What a break left of a word is no word of its own.
pub proof fn a_fragment_is_no_word(line: Seq<char>, w: Seq<char>)
    requires
        line.len() > 0,
        line.last() == '-',
        forall|j: int|
            0 <= j < fields(line).len() - 1 ==> word_of(#[trigger] fields(line)[j]) != w,
    ensures
        !line_uses(line, w),
{
}

/// Lines are justified when all of them are full, and not when none is or there are none;
/// and one more full line never makes them less so.
pub proof fn full_lines_are_justified(full: nat, lines: nat)
    ensures
        lines > 0 ==> mostly_full(lines, lines),
        !mostly_full(0, lines),
        !mostly_full(full, 0),
        mostly_full(full, lines) ==> mostly_full(full + 1, lines),
        2 * full <= lines ==> !mostly_full(full, lines),
        lines > 0 && 3 * full > 2 * lines ==> mostly_full(full, lines),
{
}

/// A page is in columns when its text stands in two bands with nothing between them, and
/// not when one band has it all, or when text runs through the gap.
pub proof fn columns_are_two_bands(total: nat, left: nat, gutter: nat, right: nat)
    ensures
        total >= 120 && left + right == total && 4 * left >= total && 4 * right >= total
            ==> in_columns(total, left, 0, right),
        !in_columns(total, left, gutter, 0),
        !in_columns(total, 0, gutter, right),
        10 * gutter >= total ==> !in_columns(total, left, gutter, right),
        total < 120 ==> !in_columns(total, left, gutter, right),
        in_columns(total, left, gutter, right) == in_columns(total, right, gutter, left),
{
}

/// What is printed of a text, without the blanks.
pub open spec fn inked(s: Seq<char>) -> Seq<char>
    decreases s.len(),
{
    if s.len() == 0 {
        s
    } else if text::white(s.last()) {
        inked(s.drop_last())
    } else {
        inked(s.drop_last()).push(s.last())
    }
}

/// Words written one behind the other.
pub open spec fn run_together(words: Seq<Seq<char>>) -> Seq<char>
    decreases words.len(),
{
    if words.len() == 0 {
        Seq::empty()
    } else {
        run_together(words.drop_last()) + words.last()
    }
}

/// A text is the words between its blanks: no word is empty or holds a blank, and all of
/// them together are what is printed.
pub proof fn words_hold_every_letter(s: Seq<char>)
    ensures
        forall|k: int| 0 <= k < fields(s).len() ==> (#[trigger] fields(s)[k]).len() > 0,
        forall|k: int, i: int|
            0 <= k < fields(s).len() && 0 <= i < fields(s)[k].len() ==> !text::white(
                #[trigger] fields(s)[k][i],
            ),
        run_together(fields(s)) == inked(s),
        s.len() > 0 && !text::white(s.last()) ==> fields(s).len() > 0,
    decreases s.len(),
{
    if s.len() > 0 {
        let less = s.drop_last();
        words_hold_every_letter(less);
        let before = fields(less);
        let all = fields(s);
        let c = s.last();
        if text::white(c) {
        } else if s.len() >= 2 && !text::white(s[s.len() - 2]) {
            assert(less.last() == s[s.len() - 2]);
            assert(all.drop_last() =~= before.drop_last());
            assert(run_together(before.drop_last()) + before.last().push(c) =~= (run_together(
                before.drop_last(),
            ) + before.last()).push(c));
            assert forall|k: int, i: int|
                0 <= k < all.len() && 0 <= i < all[k].len() implies !text::white(
                #[trigger] all[k][i],
            ) by {
                if k < before.len() - 1 {
                    assert(all[k] == before[k]);
                    assert(!text::white(before[k][i]));
                } else if i < before.last().len() {
                    assert(!text::white(before[k][i]));
                }
            }
            assert forall|k: int| 0 <= k < all.len() implies (#[trigger] all[k]).len() > 0 by {
                if k < before.len() - 1 {
                    assert(all[k] == before[k]);
                }
            }
        } else {
            assert(all.drop_last() =~= before);
            assert(run_together(before) + seq![c] =~= run_together(before).push(c));
            assert forall|k: int, i: int|
                0 <= k < all.len() && 0 <= i < all[k].len() implies !text::white(
                #[trigger] all[k][i],
            ) by {
                if k < before.len() {
                    assert(all[k] == before[k]);
                    assert(!text::white(before[k][i]));
                }
            }
            assert forall|k: int| 0 <= k < all.len() implies (#[trigger] all[k]).len() > 0 by {
                if k < before.len() {
                    assert(all[k] == before[k]);
                }
            }
        }
    }
}

} // verus!
