//! "Did you mean ...?" for short texts: scores each of a list of known
//! words against what was typed and reports the best one, provided it is
//! good enough.
//!
//! [`correct_word`] scores by similarity, a fraction from zero to one, and
//! reports the most similar option if its similarity reaches a threshold.
//! [`correct_word_by_distance`] scores by the number of edits and reports
//! the option that takes the fewest, if that number stays within a budget.
//! In both, of several options with the best score the first one wins.

use crate::levenshtein::{
    chars_of, distance_of_chars, edit_distance, similarity, similarity_is_in_unit_interval,
    similarity_of_chars,
};
use crate::selection::{
    all_positive_denominators, first_greatest, first_greatest_exists, first_greatest_is_unique,
    first_greatest_of_longer_row, first_greatest_wins, first_least, first_least_exists,
    first_least_is_unique, first_least_of_longer_row, first_least_wins, is_first_greatest,
    is_first_least,
};
use crate::similarity::{Ratio, Similarity};
use vstd::prelude::*;

pub mod edits;
pub mod levenshtein;
pub mod selection;
pub mod similarity;

verus! {

/// The ways of scoring one text against another.
#[derive(Clone, Copy, Debug)]
pub enum Algorithm {
    /// Scores by the number of characters to insert, delete or replace.
    Levenshtein,
}

impl Algorithm {
    /// How alike `a` and `b` are under this algorithm, from zero to one.
    pub open spec fn similarity(self, a: Seq<char>, b: Seq<char>) -> Ratio {
        match self {
            Algorithm::Levenshtein => similarity(a, b),
        }
    }

    /// How far `a` is from `b` under this algorithm.
    pub open spec fn distance(self, a: Seq<char>, b: Seq<char>) -> nat {
        match self {
            Algorithm::Levenshtein => edit_distance(a, b),
        }
    }

    /// The similarity of `input` to each of `options`, in their order.
    pub open spec fn similarities(self, input: Seq<char>, options: Seq<Seq<char>>) -> Seq<Ratio> {
        Seq::new(options.len(), |i: int| self.similarity(input, options[i]))
    }

    /// The distance of `input` from each of `options`, in their order.
    pub open spec fn distances(self, input: Seq<char>, options: Seq<Seq<char>>) -> Seq<nat> {
        Seq::new(options.len(), |i: int| self.distance(input, options[i]))
    }

    /// Similarities are fractions with a positive denominator.
    pub proof fn similarities_are_fractions(self, input: Seq<char>, options: Seq<Seq<char>>)
        ensures
            all_positive_denominators(self.similarities(input, options)),
            forall|i: int|
                0 <= i < options.len() ==> (#[trigger] self.similarities(
                    input,
                    options,
                )[i]).in_unit_interval(),
    {
        assert forall|i: int| 0 <= i < options.len() implies (#[trigger] self.similarities(
            input,
            options,
        )[i]).in_unit_interval() by {
            similarity_is_in_unit_interval(input, options[i]);
        }
    }
}

/// The outcome of [`correct_word`].
#[derive(Debug)]
pub struct CorrectWord {
    /// The most similar option, if it is similar enough.
    pub word: Option<String>,
    /// The similarity of the most similar option, whether or not it is
    /// similar enough; zero where there are no options.
    pub confidence: Similarity,
}

/// What a [`CorrectWord`] stands for.
pub struct Correction {
    pub word: Option<Seq<char>>,
    pub confidence: Ratio,
}

impl View for CorrectWord {
    type V = Correction;

    open spec fn view(&self) -> Correction {
        Correction {
            word: match self.word {
                Some(word) => Some(word@),
                None => None,
            },
            confidence: self.confidence@,
        }
    }
}

/// The threshold that [`correct_word`] is given, or one half if it is given
/// none.
pub open spec fn similarity_threshold(threshold: Option<Similarity>) -> Ratio {
    match threshold {
        Some(minimum) => minimum@,
        None => Ratio::half(),
    }
}

/// The correction of `input` among `options`: the confidence is the
/// greatest similarity that any option has to `input`, and the word is the
/// first option that has it, unless that similarity is less than
/// `threshold`. Without options there is no word, and the confidence is
/// zero.
pub open spec fn correction(
    algorithm: Algorithm,
    input: Seq<char>,
    options: Seq<Seq<char>>,
    threshold: Ratio,
) -> Correction {
    if options.len() == 0 {
        Correction { word: None, confidence: Ratio::zero() }
    } else {
        let scores = algorithm.similarities(input, options);
        let best = first_greatest(scores);
        Correction {
            word: if scores[best].lt(threshold) {
                None
            } else {
                Some(options[best])
            },
            confidence: scores[best],
        }
    }
}

/// Without options nothing is matched, whatever the threshold.
pub proof fn correction_without_options(algorithm: Algorithm, input: Seq<char>, threshold: Ratio)
    ensures
        correction(algorithm, input, Seq::empty(), threshold).word is None,
        correction(algorithm, input, Seq::empty(), threshold).confidence.is_zero(),
{
}

/// No option is more similar to the input than the confidence says, and a
/// word is reported exactly if there are options and the confidence is not
/// below the threshold.
pub proof fn correction_confidence_is_greatest(
    algorithm: Algorithm,
    input: Seq<char>,
    options: Seq<Seq<char>>,
    threshold: Ratio,
    j: int,
)
    requires
        0 <= j < options.len(),
    ensures
        algorithm.similarity(input, options[j]).le(
            correction(algorithm, input, options, threshold).confidence,
        ),
        correction(algorithm, input, options, threshold).word is Some <==> !correction(
            algorithm,
            input,
            options,
            threshold,
        ).confidence.lt(threshold),
{
    let scores = algorithm.similarities(input, options);
    algorithm.similarities_are_fractions(input, options);
    first_greatest_wins(scores, j);
}

/// With the threshold at zero, a word is reported whenever there are
/// options.
pub proof fn correction_at_threshold_zero(
    algorithm: Algorithm,
    input: Seq<char>,
    options: Seq<Seq<char>>,
)
    requires
        options.len() > 0,
    ensures
        correction(algorithm, input, options, Ratio::zero()).word is Some,
{
    let scores = algorithm.similarities(input, options);
    algorithm.similarities_are_fractions(input, options);
    first_greatest_exists(scores);
    scores[first_greatest(scores)].zero_and_one_are_the_bounds();
}

/// A word that is reported is one of the options, and the confidence is its
/// similarity to the input.
pub proof fn correction_reports_an_option(
    algorithm: Algorithm,
    input: Seq<char>,
    options: Seq<Seq<char>>,
    threshold: Ratio,
) -> (place: int)
    requires
        correction(algorithm, input, options, threshold).word is Some,
    ensures
        0 <= place < options.len(),
        correction(algorithm, input, options, threshold).word == Some(options[place]),
        correction(algorithm, input, options, threshold).confidence == algorithm.similarity(
            input,
            options[place],
        ),
{
    let scores = algorithm.similarities(input, options);
    algorithm.similarities_are_fractions(input, options);
    first_greatest_exists(scores);
    first_greatest(scores)
}

/// Of two options that are equally similar to the input, the later one is
/// never the one chosen: ties go to the option that comes first.
pub proof fn correction_prefers_earlier_option(
    algorithm: Algorithm,
    input: Seq<char>,
    options: Seq<Seq<char>>,
    i: int,
    j: int,
)
    requires
        0 <= i < j < options.len(),
        algorithm.similarity(input, options[i]).same_number(
            algorithm.similarity(input, options[j]),
        ),
    ensures
        first_greatest(algorithm.similarities(input, options)) != j,
{
    let scores = algorithm.similarities(input, options);
    algorithm.similarities_are_fractions(input, options);
    first_greatest_wins(scores, i);
    first_greatest_wins(scores, j);
}

/// The similarity of two texts given as characters, by `algorithm`.
fn score_similarity(algorithm: Algorithm, a: &Vec<char>, b: &Vec<char>) -> (score: Similarity)
    ensures
        score@ == algorithm.similarity(a@, b@),
{
    match algorithm {
        Algorithm::Levenshtein => similarity_of_chars(a, b),
    }
}

/// The distance between two texts given as characters, by `algorithm`.
fn score_distance(algorithm: Algorithm, a: &Vec<char>, b: &Vec<char>) -> (distance: usize)
    ensures
        distance == algorithm.distance(a@, b@),
{
    match algorithm {
        Algorithm::Levenshtein => distance_of_chars(a, b),
    }
}

/// Finds among `options` the one most similar to `input`.
///
/// The confidence of the result is the greatest similarity of any option
/// to `input`. The word is the first option with that similarity, provided
/// the similarity is at least `threshold`; without a threshold, at least
/// one half. Where there are no options there is no word, and the
/// confidence is zero.
pub fn correct_word(
    algorithm: Algorithm,
    input: String,
    options: Vec<String>,
    threshold: Option<Similarity>,
) -> (result: CorrectWord)
    ensures
        result@ == correction(
            algorithm,
            input@,
            options.deep_view(),
            similarity_threshold(threshold),
        ),
        options@.len() == 0 ==> result.word is None,
        result.confidence@.in_unit_interval(),
{
    let typed = chars_of(input.as_str());
    let ghost texts = options.deep_view();
    let ghost scores = algorithm.similarities(input@, texts);
    let mut best: usize = 0;
    let mut confidence = Similarity::zero();
    let mut i: usize = 0;
    proof {
        algorithm.similarities_are_fractions(input@, texts);
    }
    while i < options.len()
        invariant
            i <= options.len(),
            typed@ == input@,
            texts == options.deep_view(),
            scores == algorithm.similarities(input@, texts),
            all_positive_denominators(scores),
            i == 0 ==> confidence@ == Ratio::zero(),
            i > 0 ==> is_first_greatest(scores.take(i as int), best as int),
            i > 0 ==> confidence@ == scores[best as int],
        decreases options.len() - i,
    {
        let option = chars_of(options[i].as_str());
        let score = score_similarity(algorithm, &typed, &option);
        let wins = i == 0 || confidence.is_less_than(&score);
        proof {
            assert(score@ == scores[i as int]);
            assert(scores.take(i + 1) == scores.take(i as int).push(scores[i as int]));
            if i == 0 {
                assert(is_first_greatest(scores.take(1), 0));
            } else {
                first_greatest_of_longer_row(scores.take(i as int), best as int, scores[i as int]);
            }
        }
        if wins {
            best = i;
            confidence = score;
        }
        i += 1;
    }
    let minimum = match threshold {
        Some(minimum) => minimum,
        None => Similarity::half(),
    };
    proof {
        if options.len() > 0 {
            assert(scores.take(options.len() as int) == scores);
            first_greatest_is(scores, best as int);
        }
    }
    if options.len() == 0 || confidence.is_less_than(&minimum) {
        CorrectWord { word: None, confidence }
    } else {
        CorrectWord { word: Some(options[best].clone()), confidence }
    }
}

/// Where `k` is the place of the first greatest score of the row, it is the
/// place that `first_greatest` gives.
proof fn first_greatest_is(scores: Seq<Ratio>, k: int)
    requires
        is_first_greatest(scores, k),
    ensures
        first_greatest(scores) == k,
{
    first_greatest_is_unique(scores, k, first_greatest(scores));
}

/// The outcome of [`correct_word_by_distance`].
#[derive(Debug)]
pub struct NearestWord {
    /// The option that takes the fewest edits, if they are few enough.
    pub word: Option<String>,
    /// The number of edits that the nearest option takes, whether or not
    /// they are few enough; the greatest `usize` where there are no
    /// options.
    pub confidence: usize,
}

/// What a [`NearestWord`] stands for.
pub struct Nearest {
    pub word: Option<Seq<char>>,
    pub confidence: nat,
}

impl View for NearestWord {
    type V = Nearest;

    open spec fn view(&self) -> Nearest {
        Nearest {
            word: match self.word {
                Some(word) => Some(word@),
                None => None,
            },
            confidence: self.confidence as nat,
        }
    }
}

/// The budget that [`correct_word_by_distance`] is given, or zero edits if
/// it is given none.
pub open spec fn distance_threshold(threshold: Option<usize>) -> nat {
    match threshold {
        Some(budget) => budget as nat,
        None => 0,
    }
}

/// The option nearest to `input`: the confidence is the least distance of
/// any option from `input`, and the word is the first option at that
/// distance, unless the distance is more than `threshold`. Without options
/// there is no word, and the confidence is the greatest `usize`.
pub open spec fn nearest(
    algorithm: Algorithm,
    input: Seq<char>,
    options: Seq<Seq<char>>,
    threshold: nat,
) -> Nearest {
    if options.len() == 0 {
        Nearest { word: None, confidence: usize::MAX as nat }
    } else {
        let distances = algorithm.distances(input, options);
        let best = first_least(distances);
        Nearest {
            word: if distances[best] > threshold {
                None
            } else {
                Some(options[best])
            },
            confidence: distances[best],
        }
    }
}

/// Without options nothing is matched, whatever the budget.
pub proof fn nearest_without_options(algorithm: Algorithm, input: Seq<char>, threshold: nat)
    ensures
        nearest(algorithm, input, Seq::empty(), threshold).word is None,
{
}

/// No option is nearer to the input than the confidence says, whether or
/// not a word is reported, and a word is reported exactly if there are
/// options and the confidence is within the budget.
pub proof fn nearest_confidence_is_least(
    algorithm: Algorithm,
    input: Seq<char>,
    options: Seq<Seq<char>>,
    threshold: nat,
    j: int,
)
    requires
        0 <= j < options.len(),
    ensures
        nearest(algorithm, input, options, threshold).confidence <= algorithm.distance(
            input,
            options[j],
        ),
        nearest(algorithm, input, options, threshold).word is Some <==> nearest(
            algorithm,
            input,
            options,
            threshold,
        ).confidence <= threshold,
{
    first_least_wins(algorithm.distances(input, options), j);
}

/// A word that is reported is one of the options, and the confidence is its
/// distance from the input.
pub proof fn nearest_reports_an_option(
    algorithm: Algorithm,
    input: Seq<char>,
    options: Seq<Seq<char>>,
    threshold: nat,
) -> (place: int)
    requires
        nearest(algorithm, input, options, threshold).word is Some,
    ensures
        0 <= place < options.len(),
        nearest(algorithm, input, options, threshold).word == Some(options[place]),
        nearest(algorithm, input, options, threshold).confidence == algorithm.distance(
            input,
            options[place],
        ),
{
    let distances = algorithm.distances(input, options);
    first_least_exists(distances);
    first_least(distances)
}

/// Of two options at the same distance from the input, the later one is
/// never the one chosen: ties go to the option that comes first.
pub proof fn nearest_prefers_earlier_option(
    algorithm: Algorithm,
    input: Seq<char>,
    options: Seq<Seq<char>>,
    i: int,
    j: int,
)
    requires
        0 <= i < j < options.len(),
        algorithm.distance(input, options[i]) == algorithm.distance(input, options[j]),
    ensures
        first_least(algorithm.distances(input, options)) != j,
{
    let distances = algorithm.distances(input, options);
    first_least_wins(distances, i);
    first_least_wins(distances, j);
}

/// Finds among `options` the one that takes the fewest edits to reach from
/// `input`.
///
/// The confidence of the result is the least distance of any option from
/// `input`. The word is the first option at that distance, provided the
/// distance is at most `threshold`; without a threshold, provided it is
/// zero. Where there are no options there is no word, and the confidence
/// is the greatest `usize`.
pub fn correct_word_by_distance(
    algorithm: Algorithm,
    input: String,
    options: Vec<String>,
    threshold: Option<usize>,
) -> (result: NearestWord)
    ensures
        result@ == nearest(algorithm, input@, options.deep_view(), distance_threshold(threshold)),
        options@.len() == 0 ==> result.word is None,
{
    let typed = chars_of(input.as_str());
    let ghost texts = options.deep_view();
    let ghost distances = algorithm.distances(input@, texts);
    let mut best: usize = 0;
    let mut confidence = usize::MAX;
    let mut i: usize = 0;
    while i < options.len()
        invariant
            i <= options.len(),
            typed@ == input@,
            texts == options.deep_view(),
            distances == algorithm.distances(input@, texts),
            i == 0 ==> confidence == usize::MAX,
            i > 0 ==> is_first_least(distances.take(i as int), best as int),
            i > 0 ==> confidence == distances[best as int],
        decreases options.len() - i,
    {
        let option = chars_of(options[i].as_str());
        let distance = score_distance(algorithm, &typed, &option);
        proof {
            assert(distance == distances[i as int]);
            assert(distances.take(i + 1) == distances.take(i as int).push(distances[i as int]));
            if i == 0 {
                assert(is_first_least(distances.take(1), 0));
            } else {
                first_least_of_longer_row(
                    distances.take(i as int),
                    best as int,
                    distances[i as int],
                );
            }
        }
        if i == 0 || distance < confidence {
            best = i;
            confidence = distance;
        }
        i += 1;
    }
    let budget = match threshold {
        Some(budget) => budget,
        None => 0,
    };
    proof {
        if options.len() > 0 {
            assert(distances.take(options.len() as int) == distances);
            first_least_is_unique(distances, best as int, first_least(distances));
        }
    }
    if options.len() == 0 || confidence > budget {
        NearestWord { word: None, confidence }
    } else {
        NearestWord { word: Some(options[best].clone()), confidence }
    }
}

} // verus!
