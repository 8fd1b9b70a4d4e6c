use crate::model::{
    concat_values, is_run, kinds_alternate, lemma_last_token, lemma_push_new_run, lemma_push_same_run,
    lemma_push_whitespace, strip_whitespace, tokens_of,
};
use crate::state::{char_kind, class_of, is_whitespace};
use crate::token::TokenView;
use vstd::prelude::*;

verus! {

/// Every token of an input is a run: it is not empty, and its characters
/// are of one class, which is no whitespace and gives the token its kind.
pub proof fn lemma_tokens_are_runs(s: Seq<char>)
    ensures
        forall|i: int| 0 <= i < tokens_of(s).len() ==> is_run(#[trigger] tokens_of(s)[i]),
        s.len() > 0 && !is_whitespace(s.last()) ==> tokens_of(s).len() > 0 && class_of(
            tokens_of(s).last().value[0],
        ) == class_of(s.last()),
    decreases s.len(),
{
    if s.len() > 0 {
        let c = s.last();
        let init = s.drop_last();
        let before = tokens_of(init);
        lemma_tokens_are_runs(init);
        assert(init.push(c) == s);
        if is_whitespace(c) {
        } else if s.len() >= 2 && class_of(s[s.len() - 2]) == class_of(c) {
            assert(init.last() == s[s.len() - 2]);
            lemma_push_same_run(init, c);
            let joined = TokenView { kind: char_kind(c), value: before.last().value.push(c) };
            assert(is_run(before.last()));
            assert(joined.value[0] == before.last().value[0]);
            assert(is_run(joined)) by {
                assert forall|j: int| 0 <= j < joined.value.len() implies class_of(
                    #[trigger] joined.value[j],
                ) == class_of(joined.value[0]) by {
                    if j < before.last().value.len() {
                        assert(joined.value[j] == before.last().value[j]);
                    }
                }
            }
            assert forall|i: int| 0 <= i < tokens_of(s).len() implies is_run(
                #[trigger] tokens_of(s)[i],
            ) by {
                if i < before.len() - 1 {
                    assert(tokens_of(s)[i] == before[i]);
                }
            }
        } else {
            if init.len() > 0 {
                assert(init.last() == s[s.len() - 2]);
            }
            lemma_push_new_run(init, c);
            assert forall|i: int| 0 <= i < tokens_of(s).len() implies is_run(
                #[trigger] tokens_of(s)[i],
            ) by {
                if i < before.len() {
                    assert(tokens_of(s)[i] == before[i]);
                }
            }
        }
    }
}

/// The values of the tokens, one after the other, are the input without
/// its whitespace: put the whitespace back where it stood, and the input
/// is there again.
pub proof fn lemma_values_are_input_without_whitespace(s: Seq<char>)
    ensures
        concat_values(tokens_of(s)) == strip_whitespace(s),
    decreases s.len(),
{
    reveal(Seq::filter);
    if s.len() == 0 {
    } else {
        let c = s.last();
        let init = s.drop_last();
        let before = tokens_of(init);
        lemma_values_are_input_without_whitespace(init);
        assert(init.push(c) == s);
        if is_whitespace(c) {
        } else if s.len() >= 2 && class_of(s[s.len() - 2]) == class_of(c) {
            assert(init.last() == s[s.len() - 2]);
            lemma_push_same_run(init, c);
            assert(tokens_of(s).drop_last() == before.drop_last());
            assert(concat_values(before.drop_last()) + before.last().value.push(c) == (
            concat_values(before.drop_last()) + before.last().value).push(c));
        } else {
            if init.len() > 0 {
                assert(init.last() == s[s.len() - 2]);
            }
            lemma_push_new_run(init, c);
            assert(tokens_of(s).drop_last() == before);
            assert(concat_values(before) + seq![c] == concat_values(before).push(c));
        }
    }
}

/// Where `a` ends and `b` begins in different classes, or in whitespace,
/// or one of them is empty, the tokens of the two together are those of
/// `a`, then those of `b`: a change of class is a token boundary.
pub proof fn lemma_class_change_is_boundary(a: Seq<char>, b: Seq<char>)
    requires
        a.len() > 0 && b.len() > 0 ==> is_whitespace(a.last()) || class_of(a.last()) != class_of(
            b[0],
        ),
    ensures
        tokens_of(a + b) == tokens_of(a) + tokens_of(b),
    decreases b.len(),
{
    if b.len() == 0 {
        assert(a + b == a);
        assert(tokens_of(a) + tokens_of(b) == tokens_of(a));
    } else {
        let c = b.last();
        let rest = b.drop_last();
        let whole = a + b;
        assert(whole.drop_last() == a + rest);
        assert(rest.len() > 0 ==> rest[0] == b[0]);
        lemma_class_change_is_boundary(a, rest);
        let before = tokens_of(a) + tokens_of(rest);
        assert(rest.push(c) == b);
        if is_whitespace(c) {
        } else if whole.len() >= 2 && class_of(whole[whole.len() - 2]) == class_of(c) {
            assert(rest.len() > 0);
            assert(rest.last() == whole[whole.len() - 2]);
            assert(rest.last() == b[b.len() - 2]);
            lemma_last_token(rest);
            assert(before.last() == tokens_of(rest).last());
            assert(before.drop_last() == tokens_of(a) + tokens_of(rest).drop_last());
            let joined = TokenView {
                kind: before.last().kind,
                value: before.last().value.push(c),
            };
            assert(before.drop_last().push(joined) == tokens_of(a) + tokens_of(
                rest,
            ).drop_last().push(joined));
        } else {
            if rest.len() > 0 {
                assert(b[b.len() - 2] == whole[whole.len() - 2]);
            }
            let started = TokenView { kind: char_kind(c), value: seq![c] };
            assert(before.push(started) == tokens_of(a) + tokens_of(rest).push(started));
        }
    }
}

/// Whitespace keeps apart what stands on its two sides: the tokens of
/// `a`, one character of whitespace and `b` are those of `a`, then those
/// of `b`, and no token of `a` is joined to one of `b`.
pub proof fn lemma_whitespace_separates(a: Seq<char>, w: char, b: Seq<char>)
    requires
        is_whitespace(w),
    ensures
        tokens_of(a.push(w) + b) == tokens_of(a) + tokens_of(b),
{
    lemma_push_whitespace(a, w);
    lemma_class_change_is_boundary(a.push(w), b);
}

/// An input that does not end in whitespace ends in its last token: that
/// token is the longest end of the input whose characters have the class
/// of the last one.
pub proof fn lemma_final_run_is_a_token(s: Seq<char>)
    requires
        s.len() > 0,
        !is_whitespace(s.last()),
    ensures
        tokens_of(s).len() > 0,
        tokens_of(s).last().kind == char_kind(s.last()),
        0 < tokens_of(s).last().value.len() <= s.len(),
        tokens_of(s).last().value == s.subrange(
            s.len() - tokens_of(s).last().value.len(),
            s.len() as int,
        ),
        forall|j: int|
            s.len() - tokens_of(s).last().value.len() <= j < s.len() ==> class_of(#[trigger] s[j])
                == class_of(s.last()),
        tokens_of(s).last().value.len() < s.len() ==> class_of(
            s[s.len() - tokens_of(s).last().value.len() - 1],
        ) != class_of(s.last()),
    decreases s.len(),
{
    let c = s.last();
    let init = s.drop_last();
    assert(init.push(c) == s);
    lemma_last_token(s);
    if s.len() >= 2 && class_of(s[s.len() - 2]) == class_of(c) {
        assert(init.last() == s[s.len() - 2]);
        lemma_final_run_is_a_token(init);
        lemma_push_same_run(init, c);
        let run = tokens_of(init).last().value;
        assert(run.push(c) == s.subrange(s.len() - run.len() - 1, s.len() as int));
        assert forall|j: int| s.len() - run.len() - 1 <= j < s.len() implies class_of(
            #[trigger] s[j],
        ) == class_of(c) by {
            if j < s.len() - 1 {
                assert(s[j] == init[j]);
            }
        }
        if run.len() < init.len() {
            assert(s[s.len() - run.len() - 2] == init[init.len() - run.len() - 1]);
        }
    } else {
        if init.len() > 0 {
            assert(init.last() == s[s.len() - 2]);
        }
        lemma_push_new_run(init, c);
        assert(seq![c] == s.subrange(s.len() - 1, s.len() as int));
    }
}

/// What one more character adds to an input without its whitespace:
/// itself, unless it is whitespace.
proof fn lemma_strip_push(s: Seq<char>, c: char)
    ensures
        strip_whitespace(s.push(c)) == if is_whitespace(c) {
            strip_whitespace(s)
        } else {
            strip_whitespace(s).push(c)
        },
{
    reveal(Seq::filter);
    assert(s.push(c).drop_last() == s);
}

/// Without its whitespace, an input whose neighbouring tokens differ in
/// kind has the tokens that it has with it.
proof fn lemma_stripped_has_same_tokens(s: Seq<char>)
    requires
        kinds_alternate(tokens_of(s)),
    ensures
        tokens_of(strip_whitespace(s)) == tokens_of(s),
    decreases s.len(),
{
    if s.len() == 0 {
        assert(strip_whitespace(s) == s) by {
            reveal(Seq::filter);
        }
    } else {
        let c = s.last();
        let init = s.drop_last();
        let before = tokens_of(init);
        let stripped = strip_whitespace(init);
        assert(init.push(c) == s);
        lemma_strip_push(init, c);
        if is_whitespace(c) {
            lemma_stripped_has_same_tokens(init);
        } else if s.len() >= 2 && class_of(s[s.len() - 2]) == class_of(c) {
            assert(init.last() == s[s.len() - 2]);
            lemma_push_same_run(init, c);
            assert forall|i: int, j: int| 0 <= i && j == i + 1 && j < before.len() implies (
            #[trigger] before[i]).kind != (#[trigger] before[j]).kind by {
                assert(tokens_of(s)[i].kind == before[i].kind);
                assert(tokens_of(s)[j].kind == before[j].kind);
            }
            lemma_stripped_has_same_tokens(init);
            assert(stripped.len() > 0 && stripped.last() == init.last()) by {
                assert(init.drop_last().push(init.last()) == init);
                lemma_strip_push(init.drop_last(), init.last());
            }
            lemma_push_same_run(stripped, c);
        } else {
            if init.len() > 0 {
                assert(init.last() == s[s.len() - 2]);
            }
            lemma_push_new_run(init, c);
            assert forall|i: int, j: int| 0 <= i && j == i + 1 && j < before.len() implies (
            #[trigger] before[i]).kind != (#[trigger] before[j]).kind by {
                assert(tokens_of(s)[i] == before[i]);
                assert(tokens_of(s)[j] == before[j]);
            }
            lemma_stripped_has_same_tokens(init);
            if stripped.len() > 0 {
                lemma_stripped_ends_in_last_token(init);
                assert(tokens_of(s)[before.len() - 1] == before.last());
                assert(tokens_of(s)[before.len() as int].kind == char_kind(c));
            }
            lemma_push_new_run(stripped, c);
        }
    }
}

/// An input that is not all whitespace has a token, and the last one is of
/// the kind of the last character that is no whitespace.
proof fn lemma_stripped_ends_in_last_token(s: Seq<char>)
    requires
        strip_whitespace(s).len() > 0,
    ensures
        tokens_of(s).len() > 0,
        tokens_of(s).last().kind == char_kind(strip_whitespace(s).last()),
    decreases s.len(),
{
    if s.len() == 0 {
        assert(strip_whitespace(s) == s) by {
            reveal(Seq::filter);
        }
    } else {
        assert(s.drop_last().push(s.last()) == s);
        lemma_strip_push(s.drop_last(), s.last());
        if is_whitespace(s.last()) {
            lemma_stripped_ends_in_last_token(s.drop_last());
        } else {
            lemma_last_token(s);
        }
    }
}

/// Lexing the values of the tokens, one after the other, gives the same
/// tokens again, where no two neighbours among them have the same kind.
/// Two neighbours of one kind, which whitespace kept apart in the input,
/// would come back as one.
pub proof fn lemma_lexing_values_again(s: Seq<char>)
    requires
        kinds_alternate(tokens_of(s)),
    ensures
        tokens_of(concat_values(tokens_of(s))) == tokens_of(s),
{
    lemma_values_are_input_without_whitespace(s);
    lemma_stripped_has_same_tokens(s);
}

} // verus!
