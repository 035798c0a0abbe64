//! The document: a file's path and its current line-oriented content. The
//! in-memory buffer always equals the backing store as of the last read or
//! write point; every mutation updates the buffer at its own write point, so
//! the caller can persist immediately.

use crate::anchor::{is_last_containing, position};
use crate::block::{move_elements, move_spec};
use crate::errors::{EditError, OutOfBounds};
use crate::pattern::{find_regex, is_first_match, line_pattern, pattern_compiles, pattern_matches};
use crate::text::{
    contains_str, has_substr, join_lines, join_lines_nl, join_newline, join_newline_terminated,
    lemma_seq_views_push, lines_of, replace_all, replace_all_spec, replace_first,
    replace_first_spec, seq_views, split_lines, split_to_lines, split_to_segments,
};
use vstd::prelude::*;
use vstd::string::StringExecFns;

verus! {

/// When a block is built around an anchor line with `n` extra lines,
/// `Above` takes the `n` lines before the anchor and `Below` the `n`
/// lines after it.
#[derive(Clone, Copy, Debug)]
pub enum Direction {
    Above,
    Below,
}

/// Every segment that contains `key` replaced by `to`, the others kept.
pub open spec fn replace_matching_lines(
    segs: Seq<Seq<char>>,
    key: Seq<char>,
    to: Seq<char>,
) -> Seq<Seq<char>> {
    segs.map_values(
        |l: Seq<char>|
            if has_substr(l, key) {
                to
            } else {
                l
            },
    )
}

/// The predicate selecting segments that do not contain `key`.
pub open spec fn without_key(key: Seq<char>) -> spec_fn(Seq<char>) -> bool {
    |l: Seq<char>| !has_substr(l, key)
}

/// The block built around the anchor index `k` with `n` extra lines:
/// `Above` takes `(k - n, k)`, `Below` takes `(k, k + n)`, both inclusive.
pub open spec fn block_range(k: int, n: int, direction: Direction) -> (int, int) {
    match direction {
        Direction::Above => (k - n, k),
        Direction::Below => (k, k + n),
    }
}

/// The optional normalization before a relocation: when the lines just
/// before and just after the block are both empty, the empty line after the
/// block is deleted, so the vacated site does not keep a double blank.
pub open spec fn trim_after_block(ls: Seq<Seq<char>>, start: int, end: int) -> Seq<Seq<char>> {
    if 1 <= start && end + 1 < ls.len() && ls[start - 1].len() == 0 && ls[end + 1].len() == 0 {
        ls.remove(end + 1)
    } else {
        ls
    }
}

proof fn lemma_seq_views_move(v: Seq<String>, src: int, dst: int, n: int)
    requires
        0 <= src < v.len(),
        0 <= dst < v.len(),
        0 <= n,
        dst < src ==> src + n <= v.len(),
    ensures
        seq_views(move_spec(v, src, dst, n)) == move_spec(seq_views(v), src, dst, n),
{
    assert(seq_views(move_spec(v, src, dst, n)) =~~= move_spec(seq_views(v), src, dst, n));
}

/// A document: a path and the content as of the last read or write.
pub struct Handler {
    path: String,
    contents: String,
}

impl Handler {
    /// The path of the backing store.
    pub closed spec fn path_spec(&self) -> Seq<char> {
        self.path@
    }

    /// The content, equal to the backing store at every write point.
    pub closed spec fn contents_spec(&self) -> Seq<char> {
        self.contents@
    }

    /// Opens a document on `path` with an empty buffer; the first read
    /// populates it.
    pub fn try_new(path: String) -> (h: Handler)
        ensures
            h.path_spec() == path@,
            h.contents_spec() == Seq::<char>::empty(),
    {
        Handler { path, contents: String::new() }
    }

    /// The path of the backing store.
    pub fn path(&self) -> (r: &String)
        ensures
            r@ == self.path_spec(),
    {
        &self.path
    }

    /// Populates the buffer with the content a fresh read of the backing
    /// store produced.
    pub fn read(self, contents: String) -> (h: Handler)
        ensures
            h.path_spec() == self.path_spec(),
            h.contents_spec() == contents@,
    {
        Handler { path: self.path, contents }
    }

    /// Replaces the whole content at a write point: the buffer equals
    /// exactly what was written.
    pub fn write(&mut self, contents: &str)
        ensures
            final(self).path_spec() == old(self).path_spec(),
            final(self).contents_spec() == contents@,
    {
        self.contents = contents.to_owned();
    }

    /// The current content, as a fresh read of the backing store yields it.
    pub fn contents(&self) -> (r: String)
        ensures
            r@ == self.contents_spec(),
    {
        self.contents.clone()
    }

    /// The current line sequence.
    pub fn lines(&self) -> (r: Vec<String>)
        ensures
            seq_views(r@) == lines_of(self.contents_spec()),
    {
        split_to_lines(self.contents.as_str())
    }

    /// The `n`-th line, if there is one.
    pub fn nth(&self, n: usize) -> (r: Option<String>)
        ensures
            match r {
                Some(l) => n < lines_of(self.contents_spec()).len() && l@ == lines_of(
                    self.contents_spec(),
                )[n as int],
                None => n >= lines_of(self.contents_spec()).len(),
            },
    {
        let ls = self.lines();
        if n < ls.len() {
            proof {
                assert(seq_views(ls@)[n as int] == ls@[n as int]@);
            }
            Some(ls[n].clone())
        } else {
            None
        }
    }

    /// Replaces every occurrence of `key` in the content by `to`.
    pub fn replace_all_occurrences(&mut self, key: &str, to: &str)
        requires
            key@.len() >= 1,
        ensures
            final(self).path_spec() == old(self).path_spec(),
            final(self).contents_spec() == replace_all_spec(old(self).contents_spec(), key@, to@),
    {
        let next = replace_all(self.contents.as_str(), key, to);
        self.write(next.as_str());
    }

    /// Rewrites every line that contains `key` to exactly `to`, keeping the
    /// newline structure of the content.
    pub fn search_and_replace(&mut self, key: &str, to: &str)
        ensures
            final(self).path_spec() == old(self).path_spec(),
            final(self).contents_spec() == join_lines(
                replace_matching_lines(split_lines(old(self).contents_spec()), key@, to@),
            ),
    {
        let segs = split_to_segments(self.contents.as_str());
        let ghost mapped = replace_matching_lines(seq_views(segs@), key@, to@);
        let mut out: Vec<String> = Vec::new();
        let mut i: usize = 0;
        proof {
            assert(seq_views(out@) =~~= mapped.take(0));
        }
        while i < segs.len()
            invariant
                i <= segs@.len(),
                mapped == replace_matching_lines(seq_views(segs@), key@, to@),
                seq_views(out@) == mapped.take(i as int),
            decreases segs@.len() - i,
        {
            let ghost prev = out@;
            if contains_str(segs[i].as_str(), key) {
                out.push(to.to_owned());
                proof {
                    assert(has_substr(seq_views(segs@)[i as int], key@));
                    assert(mapped[i as int] == to@);
                }
            } else {
                out.push(segs[i].clone());
                proof {
                    assert(mapped[i as int] == seq_views(segs@)[i as int]);
                }
            }
            proof {
                assert(out@ == prev.push(out@.last()));
                assert(out@.last()@ == mapped[i as int]);
                lemma_seq_views_push(prev, out@.last(), mapped[i as int]);
                assert(mapped.take(i as int).push(mapped[i as int]) =~~= mapped.take(i + 1));
            }
            i += 1;
        }
        proof {
            assert(mapped.take(segs@.len() as int) =~~= mapped);
        }
        let joined = join_newline(&out);
        self.write(joined.as_str());
    }

    /// Replaces the first occurrence of `from` within the line at `at` only;
    /// every line is then rejoined with a newline terminator, the last line
    /// included.
    pub fn replace_at(&mut self, at: usize, from: &str, to: &str)
        requires
            from@.len() >= 1,
        ensures
            final(self).path_spec() == old(self).path_spec(),
            ({
                let ls = lines_of(old(self).contents_spec());
                let updated = if (at as int) < ls.len() {
                    ls.update(at as int, replace_first_spec(ls[at as int], from@, to@))
                } else {
                    ls
                };
                final(self).contents_spec() == join_lines_nl(updated)
            }),
    {
        let ls = self.lines();
        let ghost updated = if (at as int) < seq_views(ls@).len() {
            seq_views(ls@).update(
                at as int,
                replace_first_spec(seq_views(ls@)[at as int], from@, to@),
            )
        } else {
            seq_views(ls@)
        };
        let mut out: Vec<String> = Vec::new();
        let mut i: usize = 0;
        proof {
            assert(seq_views(out@) =~~= updated.take(0));
        }
        while i < ls.len()
            invariant
                i <= ls@.len(),
                from@.len() >= 1,
                updated.len() == ls@.len(),
                updated == (if (at as int) < seq_views(ls@).len() {
                    seq_views(ls@).update(
                        at as int,
                        replace_first_spec(seq_views(ls@)[at as int], from@, to@),
                    )
                } else {
                    seq_views(ls@)
                }),
                seq_views(out@) == updated.take(i as int),
            decreases ls@.len() - i,
        {
            let ghost prev = out@;
            if i == at {
                out.push(replace_first(ls[i].as_str(), from, to));
                proof {
                    assert(updated[i as int] == replace_first_spec(
                        seq_views(ls@)[i as int],
                        from@,
                        to@,
                    ));
                }
            } else {
                out.push(ls[i].clone());
                proof {
                    assert(updated[i as int] == seq_views(ls@)[i as int]);
                }
            }
            proof {
                assert(out@ == prev.push(out@.last()));
                assert(out@.last()@ == updated[i as int]);
                lemma_seq_views_push(prev, out@.last(), updated[i as int]);
                assert(updated.take(i as int).push(updated[i as int]) =~~= updated.take(i + 1));
            }
            i += 1;
        }
        proof {
            assert(updated.take(ls@.len() as int) =~~= updated);
        }
        let joined = join_newline_terminated(&out);
        self.write(joined.as_str());
    }

    /// Replaces the whole text of the line at `at` by `to`; every line is
    /// then rejoined with a newline terminator, the last line included.
    pub fn replace_line(&mut self, at: usize, to: &str)
        ensures
            final(self).path_spec() == old(self).path_spec(),
            ({
                let ls = lines_of(old(self).contents_spec());
                let updated = if (at as int) < ls.len() {
                    ls.update(at as int, to@)
                } else {
                    ls
                };
                final(self).contents_spec() == join_lines_nl(updated)
            }),
    {
        let ls = self.lines();
        let ghost updated = if (at as int) < seq_views(ls@).len() {
            seq_views(ls@).update(at as int, to@)
        } else {
            seq_views(ls@)
        };
        let mut out: Vec<String> = Vec::new();
        let mut i: usize = 0;
        proof {
            assert(seq_views(out@) =~~= updated.take(0));
        }
        while i < ls.len()
            invariant
                i <= ls@.len(),
                updated.len() == ls@.len(),
                updated == (if (at as int) < seq_views(ls@).len() {
                    seq_views(ls@).update(at as int, to@)
                } else {
                    seq_views(ls@)
                }),
                seq_views(out@) == updated.take(i as int),
            decreases ls@.len() - i,
        {
            let ghost prev = out@;
            if i == at {
                out.push(to.to_owned());
                proof {
                    assert(updated[i as int] == to@);
                }
            } else {
                out.push(ls[i].clone());
                proof {
                    assert(updated[i as int] == seq_views(ls@)[i as int]);
                }
            }
            proof {
                assert(out@ == prev.push(out@.last()));
                assert(out@.last()@ == updated[i as int]);
                lemma_seq_views_push(prev, out@.last(), updated[i as int]);
                assert(updated.take(i as int).push(updated[i as int]) =~~= updated.take(i + 1));
            }
            i += 1;
        }
        proof {
            assert(updated.take(ls@.len() as int) =~~= updated);
        }
        let joined = join_newline_terminated(&out);
        self.write(joined.as_str());
    }

    /// Deletes every segment that contains `key`, its separator included,
    /// keeping the newline structure around the remaining segments.
    pub fn delete(&mut self, key: &str)
        ensures
            final(self).path_spec() == old(self).path_spec(),
            final(self).contents_spec() == join_lines(
                split_lines(old(self).contents_spec()).filter(without_key(key@)),
            ),
    {
        let segs = split_to_segments(self.contents.as_str());
        let ghost all = seq_views(segs@);
        let mut out: Vec<String> = Vec::new();
        let mut i: usize = 0;
        proof {
            reveal(Seq::filter);
            assert(all.take(0) =~~= Seq::<Seq<char>>::empty());
            assert(seq_views(out@) =~~= all.take(0).filter(without_key(key@)));
        }
        while i < segs.len()
            invariant
                i <= segs@.len(),
                all == seq_views(segs@),
                seq_views(out@) == all.take(i as int).filter(without_key(key@)),
            decreases segs@.len() - i,
        {
            let ghost prev = out@;
            proof {
                assert(all.take(i + 1).drop_last() =~~= all.take(i as int));
                assert(all.take(i + 1).last() == all[i as int]);
            }
            if !contains_str(segs[i].as_str(), key) {
                out.push(segs[i].clone());
                proof {
                    reveal(Seq::filter);
                    assert(without_key(key@)(all[i as int]));
                    assert(all.take(i + 1).filter(without_key(key@)) == all.take(
                        i as int,
                    ).filter(without_key(key@)).push(all[i as int]));
                    assert(out@ == prev.push(out@.last()));
                    assert(out@.last()@ == all[i as int]);
                    lemma_seq_views_push(prev, out@.last(), all[i as int]);
                }
            } else {
                proof {
                    reveal(Seq::filter);
                    assert(!without_key(key@)(all[i as int]));
                    assert(all.take(i + 1).filter(without_key(key@)) == all.take(
                        i as int,
                    ).filter(without_key(key@)));
                }
            }
            i += 1;
        }
        proof {
            assert(all.take(segs@.len() as int) =~~= all);
        }
        let joined = join_newline(&out);
        self.write(joined.as_str());
    }

    /// Moves the first line matching the pattern built from `key` to sit
    /// immediately after the last line containing `after`; the lines are
    /// rejoined without a trailing terminator. Returns the moved line's
    /// original index.
    pub fn move_to(&mut self, after: &str, key: &str) -> (r: Result<usize, EditError>)
        ensures
            final(self).path_spec() == old(self).path_spec(),
            r is Err ==> final(self).contents_spec() == old(self).contents_spec(),
            ({
                let ls = lines_of(old(self).contents_spec());
                match r {
                    Ok(i) => exists|p: int|
                        {
                            &&& #[trigger] is_last_containing(ls, after@, p)
                            &&& is_first_match(ls, key@, i as int)
                            &&& final(self).contents_spec() == join_lines(
                                move_spec(ls, i as int, p, 1),
                            )
                        },
                    Err(EditError::BadPattern) => !pattern_compiles(line_pattern(key@)),
                    Err(EditError::NotFound(e)) => (e.token@ == key@ && pattern_compiles(
                        line_pattern(key@),
                    ) && (forall|j: int|
                        0 <= j < ls.len() ==> !pattern_matches(line_pattern(key@), ls[j]))) || (
                    e.token@ == after@ && (exists|i: int| is_first_match(ls, key@, i)) && (forall|
                        j: int,
                    |
                        0 <= j < ls.len() ==> !has_substr(ls[j], after@))),
                    Err(EditError::OutOfBounds(_)) => false,
                }
            }),
    {
        let mut ls = self.lines();
        let ghost ls0 = seq_views(ls@);
        let found = match find_regex(&ls, key) {
            Ok(t) => t,
            Err(e) => {
                return Err(e);
            },
        };
        let index = found.0;
        let pos = match position(&ls, after) {
            Ok(p) => p,
            Err(e) => {
                return Err(EditError::NotFound(e));
            },
        };
        let ghost before_move = ls@;
        match move_elements(&mut ls, index, pos, 1) {
            Ok(_) => {},
            Err(e) => {
                proof {
                    assert(false);
                }
                return Err(EditError::OutOfBounds(e));
            },
        };
        proof {
            lemma_seq_views_move(before_move, index as int, pos as int, 1);
        }
        let data = join_newline(&ls);
        self.write(data.as_str());
        Ok(index)
    }

    /// Moves the block of the first line matching the pattern built from
    /// `key` plus `n` lines in `direction` to sit at the last line containing
    /// `after`, after trimming a blank line at the vacated site; the lines
    /// are rejoined with a trailing newline. Fails with `OutOfBounds` when
    /// the block around the anchor does not fit the line sequence. Returns
    /// the destination index.
    pub fn move_n_lines_to(
        &mut self,
        after: &str,
        key: &str,
        n: usize,
        direction: Direction,
    ) -> (r: Result<usize, EditError>)
        ensures
            final(self).path_spec() == old(self).path_spec(),
            r is Err ==> final(self).contents_spec() == old(self).contents_spec(),
            ({
                let ls = lines_of(old(self).contents_spec());
                match r {
                    Ok(pos) => exists|k: int|
                        {
                            &&& #[trigger] is_first_match(ls, key@, k)
                            &&& ({
                                let (start, end) = block_range(k, n as int, direction);
                                &&& 0 <= start
                                &&& end < ls.len()
                                &&& ({
                                    let trimmed = trim_after_block(ls, start, end);
                                    &&& is_last_containing(trimmed, after@, pos as int)
                                    &&& final(self).contents_spec() == join_lines(
                                        move_spec(trimmed, start, pos as int, end - start + 1),
                                    ) + seq!['\n']
                                })
                            })
                        },
                    Err(EditError::BadPattern) => !pattern_compiles(line_pattern(key@)),
                    Err(EditError::NotFound(e)) => (e.token@ == key@ && pattern_compiles(
                        line_pattern(key@),
                    ) && (forall|j: int|
                        0 <= j < ls.len() ==> !pattern_matches(line_pattern(key@), ls[j]))) || (
                    exists|k: int|
                        {
                            &&& #[trigger] is_first_match(ls, key@, k)
                            &&& ({
                                let (start, end) = block_range(k, n as int, direction);
                                &&& 0 <= start
                                &&& end < ls.len()
                                &&& e.token@ == after@
                                &&& ({
                                    let trimmed = trim_after_block(ls, start, end);
                                    forall|j: int|
                                        0 <= j < trimmed.len() ==> !has_substr(trimmed[j], after@)
                                })
                            })
                        }),
                    Err(EditError::OutOfBounds(_)) => exists|k: int|
                        {
                            &&& #[trigger] is_first_match(ls, key@, k)
                            &&& ({
                                let (start, end) = block_range(k, n as int, direction);
                                start < 0 || end >= ls.len()
                            })
                        },
                }
            }),
    {
        let mut ls = self.lines();
        let ghost ls0 = seq_views(ls@);
        let found = match find_regex(&ls, key) {
            Ok(t) => t,
            Err(e) => {
                return Err(e);
            },
        };
        let key_index = found.0;
        let total = ls.len();
        let (start, end) = match direction {
            Direction::Above => {
                if n > key_index {
                    return Err(EditError::OutOfBounds(OutOfBounds {  }));
                }
                (key_index - n, key_index)
            },
            Direction::Below => {
                if n >= total - key_index {
                    return Err(EditError::OutOfBounds(OutOfBounds {  }));
                }
                (key_index, key_index + n)
            },
        };
        proof {
            assert((start as int, end as int) == block_range(key_index as int, n as int, direction));
            assert(seq_views(ls@).len() == ls@.len());
            assert(start <= end < total);
        }
        if start >= 1 && end + 1 < ls.len() {
            let before_empty = ls[start - 1].as_str().is_empty();
            let after_empty = ls[end + 1].as_str().is_empty();
            if before_empty && after_empty {
                let _removed = ls.remove(end + 1);
            }
        }
        proof {
            assert(seq_views(ls@) =~~= trim_after_block(ls0, start as int, end as int));
        }
        let ghost trimmed = seq_views(ls@);
        let pos = match position(&ls, after) {
            Ok(p) => p,
            Err(e) => {
                return Err(EditError::NotFound(e));
            },
        };
        let count = end - start + 1;
        let ghost before_move = ls@;
        match move_elements(&mut ls, start, pos, count) {
            Ok(_) => {},
            Err(e) => {
                proof {
                    assert(false);
                }
                return Err(EditError::OutOfBounds(e));
            },
        };
        proof {
            lemma_seq_views_move(before_move, start as int, pos as int, count as int);
        }
        let mut data = join_newline(&ls);
        data.append("\n");
        proof {
            reveal_strlit("\n");
            assert("\n"@ =~= seq!['\n']);
        }
        self.write(data.as_str());
        Ok(pos)
    }
}

} // verus!
