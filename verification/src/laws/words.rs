//! What holds of texts: slugs, numbers, chains of messages, and the sentences
//! that rows and events carry.

use crate::cli::number;
use crate::deployment::{both_causes, cap_exceeded, RunErrorView};
use crate::model::Stage;
use crate::reconciliation::{crashed_at, freed, stuck};
use crate::reservation::{refusal, ReserveErrorView};
use crate::spec::{slug_of, SpecError};
use crate::text::{decimal_of, digits, one_line};
use vstd::prelude::*;
use vstd::string::*;

verus! {

/// The slug of a word, which is made of ASCII letters and digits alone, is the
/// word with every capital turned into its small letter.
pub proof fn law_slug_of_a_word(word: Seq<char>)
    requires
        forall|i: int|
            0 <= i < word.len() ==> 'a' <= #[trigger] word[i] <= 'z' || 'A' <= word[i] <= 'Z'
                || '0' <= word[i] <= '9',
    ensures
        slug_of(word).len() == word.len(),
        forall|i: int|
            0 <= i < word.len() ==> #[trigger] slug_of(word)[i] == (if 'A' <= word[i] <= 'Z' {
                (word[i] as u32 + 32) as char
            } else {
                word[i]
            }),
    decreases word.len(),
{
    if word.len() > 0 {
        let before = word.drop_last();
        assert forall|i: int| 0 <= i < before.len() implies 'a' <= #[trigger] before[i] <= 'z'
            || 'A' <= before[i] <= 'Z' || '0' <= before[i] <= '9' by {
            assert(before[i] == word[i]);
        }
        law_slug_of_a_word(before);
        assert(word.last() == word[word.len() - 1]);
        if before.len() > 0 {
            assert(before.last() == word[word.len() - 2]);
        }
        assert forall|i: int| 0 <= i < word.len() implies #[trigger] slug_of(word)[i] == (if 'A'
            <= word[i] <= 'Z' {
            (word[i] as u32 + 32) as char
        } else {
            word[i]
        }) by {
            if i < before.len() {
                assert(slug_of(word)[i] == slug_of(before)[i]);
                assert(before[i] == word[i]);
            }
        }
    }
}

/// What is neither an ASCII letter nor a digit parts a name in two: the slug of
/// the whole is the slugs of the two with one hyphen between them, or the one
/// that is not empty.
pub proof fn law_slug_parts(left: Seq<char>, between: char, right: Seq<char>)
    requires
        !('a' <= between <= 'z'),
        !('A' <= between <= 'Z'),
        !('0' <= between <= '9'),
    ensures
        slug_of(left + seq![between] + right) == (if slug_of(left).len() == 0 {
            slug_of(right)
        } else if slug_of(right).len() == 0 {
            slug_of(left)
        } else {
            slug_of(left) + seq!['-'] + slug_of(right)
        }),
    decreases right.len(),
{
    let whole = left + seq![between] + right;
    if right.len() == 0 {
        assert(whole =~= left.push(between));
        assert(whole.drop_last() =~= left);
        assert(slug_of(right) =~= Seq::empty());
    } else {
        let before = right.drop_last();
        law_slug_parts(left, between, before);
        assert(whole.drop_last() =~= left + seq![between] + before);
        assert(whole.last() == right.last());
        if before.len() > 0 {
            assert(whole.drop_last().last() == before.last());
        } else {
            assert(whole.drop_last().last() == between);
        }
        assert(slug_of(whole) =~= (if slug_of(left).len() == 0 {
            slug_of(right)
        } else if slug_of(right).len() == 0 {
            slug_of(left)
        } else {
            slug_of(left) + seq!['-'] + slug_of(right)
        }));
    }
}

/// A chain of one message reads as the message, and an empty one as nothing.
/// Where a chain is put before another, both read one after the other, with a
/// colon and a blank between them.
pub proof fn law_chains_read_in_order(
    outer: Seq<Seq<char>>,
    inner: Seq<Seq<char>>,
    message: Seq<char>,
)
    ensures
        one_line(Seq::empty()) == Seq::<char>::empty(),
        one_line(seq![message]) == message,
        outer.len() > 0 && inner.len() > 0 ==> one_line(outer + inner) == one_line(outer) + seq![
            ':',
            ' ',
        ] + one_line(inner),
    decreases inner.len(),
{
    reveal_strlit(": ");
    assert(": "@ =~= seq![':', ' ']);
    if outer.len() > 0 && inner.len() > 0 {
        let whole = outer + inner;
        let before = inner.drop_last();
        assert(whole.drop_last() =~= outer + before);
        assert(whole.last() == inner.last());
        if before.len() > 0 {
            law_chains_read_in_order(outer, before, message);
            assert(one_line(whole) =~= one_line(outer) + seq![':', ' '] + one_line(inner));
        } else {
            assert(whole.drop_last() =~= outer);
            assert(one_line(whole) =~= one_line(outer) + seq![':', ' '] + one_line(inner));
        }
    }
}

/// A digit is worth its distance from zero, and anything else is no number.
pub proof fn law_number_of_one(c: char)
    ensures
        number(Seq::empty()) is None,
        number(seq![c]) == (if '0' <= c <= '9' {
            Some((c as u32 - 48) as nat)
        } else {
            None::<nat>
        }),
{
    assert(seq![c].last() == c);
}

/// One more digit makes a number ten times as large, and the digit larger.
pub proof fn law_number_of_more(text: Seq<char>, c: char)
    requires
        text.len() > 0,
    ensures
        number(text.push(c)) == (match (number(text), number(seq![c])) {
            (Some(high), Some(low)) => Some((10 * high + low) as nat),
            _ => None::<nat>,
        }),
{
    law_number_of_one(c);
    assert(text.push(c).drop_last() =~= text);
    assert(text.push(c).last() == c);
}

/// A number that is written in digits reads as the number. There are only
/// digits, and no zero stands in front.
pub proof fn law_written_number_reads_back(value: nat)
    ensures
        number(digits(value)) == Some(value),
        digits(value).len() > 0,
        forall|i: int| 0 <= i < digits(value).len() ==> '0' <= #[trigger] digits(value)[i] <= '9',
        value >= 10 ==> digits(value)[0] != '0',
        value < 10 ==> digits(value).len() == 1,
        value > 0 ==> digits(value)[0] != '0',
    decreases value,
{
    let low = value % 10;
    let c = ('0' as u32 + low) as char;
    law_number_of_one(c);
    if value < 10 {
        assert(digits(value) == seq![c]);
    } else {
        let high = value / 10;
        law_written_number_reads_back(high);
        law_number_of_more(digits(high), c);
        assert(digits(value) == digits(high).push(c));
        assert forall|i: int| 0 <= i < digits(value).len() implies '0' <= #[trigger] digits(
            value,
        )[i] <= '9' by {
            if i < digits(high).len() {
                assert(digits(value)[i] == digits(high)[i]);
            }
        }
    }
}

/// A number from zero on is written in digits, and one below zero as a hyphen and
/// what it is away from zero.
pub proof fn law_written_sign(value: nat)
    ensures
        number(decimal_of(value as int)) == Some(value),
        decimal_of(value as int)[0] != '-',
        value > 0 ==> decimal_of(-(value as int)) == seq!['-'] + decimal_of(value as int),
{
    reveal_strlit("-");
    assert("-"@ =~= seq!['-']);
    law_written_number_reads_back(value);
    assert(digits(value)[0] != '-');
}

/// What a deploy that a crash cut short says, for each stage.
pub proof fn law_words_of_a_crash(stage: Stage)
    ensures
        crashed_at(stage) == "reconciled after restart (was in progress at "@ + (match stage {
            Stage::Detect => "Detect"@,
            Stage::Build => "Build"@,
            Stage::Secrets => "Secrets"@,
            Stage::Apply => "Apply"@,
            Stage::Route => "Route"@,
            Stage::Healthcheck => "Healthcheck"@,
        }) + ")"@,
{
}

/// What a failure says: each cause, and the error of what was tried last, whole.
pub proof fn law_words_of_a_failure(
    cause: Seq<char>,
    error: Seq<Seq<char>>,
    app: Seq<char>,
    id: i64,
)
    ensures
        both_causes(cause, error) == cause + "; compensation also failed: "@ + one_line(error),
        stuck(error) == "reconcile compensation failed: "@ + one_line(error),
        cap_exceeded() == seq!["healthcheck stage exceeded its 90s hard cap"@],
        freed(app) == "released orphaned lock: "@ + app,
        refusal() == "another deploy is already in progress"@,
        (ReserveErrorView::Busy { name: app, deploy_id: id }).chain() == seq![
            "another deploy of "@ + app + " is already in progress"@,
        ],
        ReserveErrorView::Internal(error).chain() == error,
        RunErrorView::Internal(error).chain() == error,
        RunErrorView::Reserve(ReserveErrorView::Internal(error)).chain() == error,
        RunErrorView::Reserve(ReserveErrorView::Busy { name: app, deploy_id: id }).chain() == seq![
            "another deploy of "@ + app + " is already in progress"@,
        ],
{
}

/// What a refused spec says, for each reason.
pub proof fn law_words_of_a_refusal(error: SpecError)
    ensures
        RunErrorView::Invalid(error).chain() == seq![
            match error {
                SpecError::EmptySlug => "the name has no letter and no digit"@,
                SpecError::LineBreak => "a field holds a line break"@,
                SpecError::RouteWithoutHealthCheck => "a route needs a health_cmd"@,
            },
        ],
{
}

} // verus!
