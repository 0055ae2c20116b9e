//! The keyphrase puzzle: solutions are compared after sanitizing — all
//! whitespace removed and every character lowercased — so that spacing and
//! capitalization never decide a winner.
use crate::error::ServerError;
use vstd::pervasive::VecAdditionalExecFns;
use vstd::prelude::*;

verus! {

/// A puzzle id and its (sanitized) keyphrase.
#[derive(Clone, PartialEq, Debug)]
pub struct Keyphrase {
    /// puzzle id
    pub puzzle: String,
    /// sanitized keyphrase
    pub keyphrase: String,
}

/// A puzzle and, once solved, its winner's canonical address bytes.
#[derive(Clone, PartialEq, Debug)]
pub struct StoredWinner {
    /// keyphrase
    pub puzzle_info: Keyphrase,
    /// winner's address
    pub winner: Option<Vec<u8>>,
}

/// The outcome of a proposed solution.
#[derive(Clone, Copy, PartialEq, Eq, Structural, Debug)]
pub enum SolveResponse {
    Winner,
    WrongAnswer,
    AlreadySolved,
    Correct,
}

/// The lowercase mapping of one character, one to three characters long.
pub uninterp spec fn char_lower(c: char) -> Seq<char>;

/// Whether a character counts as whitespace.
pub uninterp spec fn char_is_space(c: char) -> bool;

/// Relies on char::to_lowercase: the lowercase mapping of a character,
/// a function of the character alone, at least one character long.
#[verifier::external_body]
fn to_lowercase_chars(c: char) -> (r: Vec<char>)
    ensures
        r@ == char_lower(c),
        r@.len() >= 1,
{
    c.to_lowercase().collect()
}

/// Relies on char::is_whitespace: whether the character has the Unicode
/// whitespace property, a function of the character alone.
#[verifier::external_body]
fn is_whitespace_char(c: char) -> (r: bool)
    ensures
        r == char_is_space(c),
{
    c.is_whitespace()
}

/// The sanitized form of a string: whitespace dropped, the rest lowercased.
pub open spec fn sanitized(s: Seq<char>) -> Seq<char>
    decreases s.len(),
{
    if s.len() == 0 {
        Seq::empty()
    } else if char_is_space(s[0]) {
        sanitized(s.skip(1))
    } else {
        char_lower(s[0]) + sanitized(s.skip(1))
    }
}

/// Removes whitespace and lowercases, so that two phrasings of the same
/// answer compare equal.
#[verifier::loop_isolation(false)]
pub fn sanitize_str(input: &str) -> (r: String)
    ensures
        r@ == sanitized(input@),
{
    let chars: Vec<char> = chars_of(input);
    let mut buf: Vec<char> = Vec::new();
    let mut i: usize = 0;
    proof {
        assert(chars@.skip(0) =~= chars@);
    }
    while i < chars.len()
        invariant
            i <= chars@.len(),
            buf@ + sanitized(chars@.skip(i as int)) == sanitized(chars@),
        decreases chars@.len() - i,
    {
        proof {
            assert(chars@.skip(i as int)[0] == chars@[i as int]);
            assert(chars@.skip(i as int).skip(1) =~= chars@.skip(i as int + 1));
        }
        let c = chars[i];
        if !is_whitespace_char(c) {
            let lows = to_lowercase_chars(c);
            let ghost pre = buf@;
            append_chars(&mut buf, &lows);
            proof {
                assert(pre + (char_lower(c) + sanitized(chars@.skip(i as int + 1))) =~= (pre
                    + char_lower(c)) + sanitized(chars@.skip(i as int + 1)));
            }
        }
        i = i + 1;
    }
    proof {
        assert(chars@.skip(chars@.len() as int).len() == 0);
        assert(buf@ + sanitized(chars@.skip(chars@.len() as int)) =~= buf@);
    }
    string_from_chars(&buf)
}

/// Relies on str::chars: the characters of the string, in order.
#[verifier::external_body]
fn chars_of(s: &str) -> (r: Vec<char>)
    ensures
        r@ == s@,
{
    s.chars().collect()
}

/// Relies on String::from_iter over characters: the string holding exactly
/// these characters.
#[verifier::external_body]
fn string_from_chars(chars: &Vec<char>) -> (r: String)
    ensures
        r@ == chars@,
{
    chars.iter().collect()
}

/// Appends every character of `more` to `out`, in order.
#[verifier::loop_isolation(false)]
fn append_chars(out: &mut Vec<char>, more: &Vec<char>)
    ensures
        final(out)@ == old(out)@ + more@,
{
    let ghost orig = out@;
    let mut i: usize = 0;
    while i < more.len()
        invariant
            i <= more@.len(),
            out@ == orig + more@.take(i as int),
        decreases more@.len() - i,
    {
        out.push(more[i]);
        proof {
            assert(orig + more@.take(i as int) + seq![more@[i as int]] =~= orig + more@.take(
                i as int + 1,
            ));
        }
        i = i + 1;
    }
    proof {
        assert(orig + more@.take(more@.len() as int) =~= orig + more@);
    }
}

/// Sanitizes the keyphrase of a puzzle entry; the puzzle id stays as it is.
pub fn sanitize_kp(input: Keyphrase) -> (r: Keyphrase)
    ensures
        r.puzzle == input.puzzle,
        r.keyphrase@ == sanitized(input.keyphrase@),
{
    Keyphrase { puzzle: input.puzzle, keyphrase: sanitize_str(input.keyphrase.as_str()) }
}

/// The index of the first entry for this puzzle id, if any.
pub open spec fn puzzle_index(winners: Seq<StoredWinner>, puzzle: Seq<char>) -> Option<int>
    decreases winners.len(),
{
    if winners.len() == 0 {
        None
    } else if winners[0].puzzle_info.puzzle@ == puzzle {
        Some(0int)
    } else {
        match puzzle_index(winners.skip(1), puzzle) {
            Some(i) => Some(i + 1),
            None => None,
        }
    }
}

/// Finds a puzzle entry by id, by linear scan.
#[verifier::loop_isolation(false)]
pub fn find_puzzle(winners: &Vec<StoredWinner>, puzzle: &str) -> (r: Option<usize>)
    ensures
        match r {
            Some(i) => puzzle_index(winners@, puzzle@) == Some(i as int) && i < winners@.len(),
            None => puzzle_index(winners@, puzzle@) is None,
        },
{
    let mut i: usize = 0;
    proof {
        assert(winners@.skip(0) =~= winners@);
    }
    while i < winners.len()
        invariant
            i <= winners@.len(),
            puzzle_index(winners@, puzzle@) == match puzzle_index(
                winners@.skip(i as int),
                puzzle@,
            ) {
                Some(k) => Some(k + i),
                None => None,
            },
        decreases winners@.len() - i,
    {
        proof {
            assert(winners@.skip(i as int)[0] == winners@[i as int]);
            assert(winners@.skip(i as int).skip(1) =~= winners@.skip(i as int + 1));
        }
        if crate::state::string_eq_str(&winners[i].puzzle_info.puzzle, puzzle) {
            return Some(i);
        }
        i = i + 1;
    }
    proof {
        assert(winners@.skip(i as int).len() == 0);
    }
    None
}

pub proof fn lemma_puzzle_index_in_range(winners: Seq<StoredWinner>, puzzle: Seq<char>)
    ensures
        match puzzle_index(winners, puzzle) {
            Some(i) => 0 <= i < winners.len() && winners[i].puzzle_info.puzzle@ == puzzle,
            None => true,
        },
    decreases winners.len(),
{
    if winners.len() > 0 && winners[0].puzzle_info.puzzle@ != puzzle {
        lemma_puzzle_index_in_range(winners.skip(1), puzzle);
    }
}

/// Adds new puzzles, each keyphrase sanitized and not yet won.  Errs —
/// changing nothing — when a puzzle id already exists or appears twice in
/// the batch.
#[verifier::loop_isolation(false)]
pub fn try_add_key_phrases(winners: &mut Vec<StoredWinner>, keyphrases: Vec<Keyphrase>) -> (r:
    Result<(), ServerError>)
    ensures
        match r {
            Ok(()) => {
                &&& final(winners)@.len() == old(winners)@.len() + keyphrases@.len()
                &&& forall|k: int|
                    0 <= k < old(winners)@.len() ==> final(winners)@[k] == old(winners)@[k]
                &&& forall|q: int|
                    0 <= q < keyphrases@.len() ==> {
                        let entry = #[trigger] final(winners)@[old(winners)@.len() + q];
                        entry.winner is None && entry.puzzle_info.puzzle@ == keyphrases@[q].puzzle@
                            && entry.puzzle_info.keyphrase@ == sanitized(
                            keyphrases@[q].keyphrase@,
                        )
                    }
            },
            Err(e) => final(winners)@ == old(winners)@ && e matches ServerError::PuzzleExists {
                ..
            },
        },
{
    // validate the whole batch before recording anything
    let mut q: usize = 0;
    while q < keyphrases.len()
        invariant
            q <= keyphrases@.len(),
        decreases keyphrases@.len() - q,
    {
        if find_puzzle(winners, keyphrases[q].puzzle.as_str()).is_some() {
            return Err(ServerError::PuzzleExists { name: keyphrases[q].puzzle.clone() });
        }
        let mut p: usize = 0;
        while p < q
            invariant
                p <= q < keyphrases@.len(),
            decreases q - p,
        {
            if crate::state::str_eq(keyphrases[p].puzzle.as_str(), keyphrases[q].puzzle.as_str()) {
                return Err(ServerError::PuzzleExists { name: keyphrases[q].puzzle.clone() });
            }
            p = p + 1;
        }
        q = q + 1;
    }
    let ghost kp0 = keyphrases@;
    let ghost base = winners@.len() as int;
    let mut rest = keyphrases;
    let ghost done = 0int;
    while rest.len() > 0
        invariant
            rest@ == kp0.skip(done),
            0 <= done <= kp0.len(),
            winners@.len() == base + done,
            forall|k: int| 0 <= k < base ==> winners@[k] == old(winners)@[k],
            forall|q2: int|
                0 <= q2 < done ==> {
                    let entry = #[trigger] winners@[base + q2];
                    entry.winner is None && entry.puzzle_info.puzzle@ == kp0[q2].puzzle@
                        && entry.puzzle_info.keyphrase@ == sanitized(kp0[q2].keyphrase@)
                },
        decreases rest@.len(),
    {
        let kp = rest.remove(0);
        proof {
            assert(kp == kp0[done]);
            assert(rest@ =~= kp0.skip(done + 1));
        }
        winners.push(StoredWinner { puzzle_info: sanitize_kp(kp), winner: None });
        proof {
            done = done + 1;
        }
    }
    Ok(())
}

/// Every entry is drawn from the original list.
pub open spec fn winners_from(list: Seq<StoredWinner>, orig: Seq<StoredWinner>) -> bool {
    forall|k: int|
        0 <= k < list.len() ==> (exists|q: int|
            0 <= q < orig.len() && (#[trigger] list[k]) == orig[q])
}

/// Removes every puzzle whose id stands in the list; the rest keep their
/// order.
#[verifier::loop_isolation(false)]
pub fn try_remove_key_phrases(winners: &mut Vec<StoredWinner>, puzzles: &Vec<String>) -> (changed:
    bool)
    ensures
        final(winners)@.len() <= old(winners)@.len(),
        winners_from(final(winners)@, old(winners)@),
        changed == (final(winners)@.len() != old(winners)@.len()),
{
    let n0 = winners.len();
    let mut kept: Vec<StoredWinner> = Vec::new();
    let ghost orig = winners@;
    let ghost done = 0int;
    while winners.len() > 0
        invariant
            n0 == orig.len(),
            winners@ == orig.skip(done),
            0 <= done <= orig.len(),
            kept@.len() <= done,
            winners_from(kept@, orig),
        decreases winners@.len(),
    {
        let w = winners.remove(0);
        proof {
            assert(w == orig[done]);
            assert(winners@ =~= orig.skip(done + 1));
        }
        let mut listed = false;
        let mut p: usize = 0;
        while p < puzzles.len()
            invariant
                p <= puzzles@.len(),
            decreases puzzles@.len() - p,
        {
            if crate::state::string_eq_str(&puzzles[p], w.puzzle_info.puzzle.as_str()) {
                listed = true;
            }
            p = p + 1;
        }
        if !listed {
            let ghost pre = kept@;
            kept.push(w);
            proof {
                assert(kept@[kept@.len() - 1] == orig[done]);
                assert forall|k: int| 0 <= k < kept@.len() implies (exists|q: int|
                    0 <= q < orig.len() && (#[trigger] kept@[k]) == orig[q]) by {
                    if k < kept@.len() - 1 {
                        assert(winners_from(pre, orig));
                        let q = choose|q: int|
                            0 <= q < orig.len() && (#[trigger] pre[k]) == orig[q];
                        assert(kept@[k] == orig[q]);
                    }
                }
            }
        }
        proof {
            done = done + 1;
        }
    }
    let changed = kept.len() != n0;
    *winners = kept;
    changed
}

/// Checks whether a proposed solution is the first correct answer to a
/// puzzle: the first correct answer records the sender as the winner; a
/// wrong answer or an already-solved puzzle records nothing.  Errs exactly
/// when no puzzle carries the id.
#[verifier::loop_isolation(false)]
pub fn try_solve(winners: &mut Vec<StoredWinner>, solution: &Keyphrase, sender: &Vec<u8>) -> (r:
    Result<SolveResponse, ServerError>)
    ensures
        match r {
            Ok(resp) => {
                let i = puzzle_index(old(winners)@, solution.puzzle@).unwrap();
                &&& puzzle_index(old(winners)@, solution.puzzle@) is Some
                &&& match resp {
                    SolveResponse::Winner => {
                        &&& old(winners)@[i].winner is None
                        &&& old(winners)@[i].puzzle_info.keyphrase@ == sanitized(
                            solution.keyphrase@,
                        )
                        &&& final(winners)@.len() == old(winners)@.len()
                        &&& forall|k: int|
                            0 <= k < old(winners)@.len() && k != i
                                ==> final(winners)@[k] == old(winners)@[k]
                        &&& final(winners)@[i].puzzle_info.puzzle@
                            == old(winners)@[i].puzzle_info.puzzle@
                        &&& final(winners)@[i].puzzle_info.keyphrase@
                            == old(winners)@[i].puzzle_info.keyphrase@
                        &&& match final(winners)@[i].winner {
                            Some(w) => w@ == sender@,
                            None => false,
                        }
                    },
                    SolveResponse::WrongAnswer => old(winners)@[i].winner is None
                        && old(winners)@[i].puzzle_info.keyphrase@ != sanitized(
                        solution.keyphrase@,
                    ) && final(winners)@ == old(winners)@,
                    SolveResponse::AlreadySolved => old(winners)@[i].winner is Some
                        && final(winners)@ == old(winners)@,
                    SolveResponse::Correct => false,
                }
            },
            Err(e) => puzzle_index(old(winners)@, solution.puzzle@) is None && final(winners)@
                == old(winners)@ && (e matches ServerError::PuzzleNotFound { name } && name@
                == solution.puzzle@),
        },
{
    let idx = match find_puzzle(winners, solution.puzzle.as_str()) {
        Some(i) => i,
        None => {
            return Err(ServerError::PuzzleNotFound { name: solution.puzzle.clone() });
        },
    };
    proof {
        lemma_puzzle_index_in_range(winners@, solution.puzzle@);
    }
    if winners[idx].winner.is_some() {
        return Ok(SolveResponse::AlreadySolved);
    }
    let cleaned = sanitize_str(solution.keyphrase.as_str());
    if winners[idx].puzzle_info.keyphrase == cleaned {
        let info = Keyphrase {
            puzzle: winners[idx].puzzle_info.puzzle.clone(),
            keyphrase: winners[idx].puzzle_info.keyphrase.clone(),
        };
        let mut entry = StoredWinner {
            puzzle_info: info,
            winner: Some(crate::canonical::clone_bytes(sender)),
        };
        winners.set_and_swap(idx, &mut entry);
        Ok(SolveResponse::Winner)
    } else {
        Ok(SolveResponse::WrongAnswer)
    }
}

} // verus!
