//! The patch lines of indexed-vertex patch files: sixteen vertex indices,
//! separated by commas.
use vstd::prelude::*;

verus! {

/// An ASCII decimal digit.
pub open spec fn is_digit(c: u8) -> bool {
    48 <= c <= 57
}

/// The comma-separated fields of `s`; a string without commas is one field.
pub open spec fn fields(s: Seq<u8>) -> Seq<Seq<u8>>
    decreases s.len(),
{
    if s.len() == 0 {
        seq![Seq::<u8>::empty()]
    } else {
        let f = fields(s.drop_last());
        if s.last() == 44 {
            f.push(Seq::<u8>::empty())
        } else {
            f.update(f.len() - 1, f.last().push(s.last()))
        }
    }
}

/// The number written in decimal digits by `f`.
pub open spec fn decimal(f: Seq<u8>) -> int
    decreases f.len(),
{
    if f.len() == 0 {
        0
    } else {
        decimal(f.drop_last()) * 10 + (f.last() - 48)
    }
}

/// A field made of digits only, holding a number that fits a `usize`.
pub open spec fn digits_fit(f: Seq<u8>) -> bool {
    (forall|i: int| 0 <= i < f.len() ==> is_digit(#[trigger] f[i])) && decimal(f) <= usize::MAX
}

/// A non-empty field of digits holding a number that fits a `usize`.
pub open spec fn valid_index(f: Seq<u8>) -> bool {
    f.len() >= 1 && digits_fit(f)
}

/// Exactly sixteen fields, each a valid index.
pub open spec fn valid_patch_line(s: Seq<u8>) -> bool {
    fields(s).len() == 16 && forall|i: int| 0 <= i < 16 ==> valid_index(#[trigger] fields(s)[i])
}

proof fn lemma_fields_nonempty(s: Seq<u8>)
    ensures
        fields(s).len() >= 1,
    decreases s.len(),
{
    if s.len() > 0 {
        lemma_fields_nonempty(s.drop_last());
    }
}

/// The sixteen vertex indices of a patch line; `None` unless the line is
/// exactly sixteen comma-separated decimal numbers that fit a `usize`.
pub fn parse_patch(line: &[u8]) -> (r: Option<Vec<usize>>)
    ensures
        r is Some <==> valid_patch_line(line@),
        r matches Some(v) ==> v@.len() == 16 && forall|i: int| 0 <= i < 16 ==> #[trigger] v@[i] == decimal(fields(line@)[i]),
{
    let mut done: Vec<usize> = Vec::new();
    let mut all_ok = true;
    let mut cur: usize = 0;
    let mut cur_len: usize = 0;
    let mut cur_ok = true;
    let mut k: usize = 0;
    proof {
        assert(line@.subrange(0, 0) =~= Seq::<u8>::empty());
    }
    while k < line.len()
        invariant
            k <= line@.len(),
            cur_len <= k,
            fields(line@.subrange(0, k as int)).len() >= 1,
            done@.len() == fields(line@.subrange(0, k as int)).len() - 1,
            all_ok == forall|i: int| 0 <= i < fields(line@.subrange(0, k as int)).len() - 1 ==> valid_index(
                #[trigger] fields(line@.subrange(0, k as int))[i],
            ),
            forall|i: int|
                0 <= i < fields(line@.subrange(0, k as int)).len() - 1 && valid_index(fields(line@.subrange(0, k as int))[i])
                    ==> #[trigger] done@[i] == decimal(fields(line@.subrange(0, k as int))[i]),
            cur_len == fields(line@.subrange(0, k as int)).last().len(),
            cur_ok == digits_fit(fields(line@.subrange(0, k as int)).last()),
            cur_ok ==> cur == decimal(fields(line@.subrange(0, k as int)).last()),
        decreases line@.len() - k,
    {
        let c = line[k];
        let ghost s0 = line@.subrange(0, k as int);
        let ghost s1 = line@.subrange(0, k + 1);
        let ghost f0 = fields(s0);
        proof {
            assert(s1.drop_last() =~= s0);
            assert(s1.last() == c);
            lemma_fields_nonempty(s0);
        }
        if c == 44 {
            proof {
                assert(fields(s1) == f0.push(Seq::<u8>::empty()));
            }
            all_ok = all_ok && cur_ok && cur_len >= 1;
            done.push(cur);
            cur = 0;
            cur_len = 0;
            cur_ok = true;
            proof {
                let f1 = fields(s1);
                assert(f1.last() =~= Seq::<u8>::empty());
                assert(decimal(Seq::<u8>::empty()) == 0);
                assert forall|i: int| 0 <= i < f1.len() - 1 implies #[trigger] f1[i] == f0[i] by {}
                assert(f1[f1.len() - 2] == f0.last());
                assert(all_ok == forall|i: int| 0 <= i < f1.len() - 1 ==> valid_index(#[trigger] f1[i])) by {
                    if all_ok {
                        assert forall|i: int| 0 <= i < f1.len() - 1 implies valid_index(#[trigger] f1[i]) by {
                            if i < f0.len() - 1 {
                                assert(valid_index(f0[i]));
                            }
                        }
                    } else {
                        if !(forall|i: int| 0 <= i < f0.len() - 1 ==> valid_index(#[trigger] f0[i])) {
                            let j = choose|i: int| 0 <= i < f0.len() - 1 && !valid_index(#[trigger] f0[i]);
                            assert(!valid_index(f1[j]));
                        } else {
                            assert(!valid_index(f1[f1.len() - 2]));
                        }
                    }
                }
            }
        } else {
            let ghost last0 = f0.last();
            let ghost last1 = last0.push(c);
            proof {
                assert(fields(s1) == f0.update(f0.len() - 1, last1));
                assert(last1.drop_last() =~= last0);
                assert(decimal(last1) == decimal(last0) * 10 + (c - 48));
            }
            if 48 <= c && c <= 57 {
                if cur_ok {
                    let v: u128 = (cur as u128) * 10 + ((c - 48) as u128);
                    if v > usize::MAX as u128 {
                        cur_ok = false;
                    } else {
                        cur = v as usize;
                    }
                } else {
                    proof {
                        if forall|i: int| 0 <= i < last0.len() ==> is_digit(#[trigger] last0[i]) {
                            assert(decimal(last0) > usize::MAX);
                        } else {
                            let j = choose|i: int| 0 <= i < last0.len() && !is_digit(#[trigger] last0[i]);
                            assert(!is_digit(last1[j]));
                        }
                    }
                }
                proof {
                    if digits_fit(last0) {
                        assert forall|i: int| 0 <= i < last1.len() implies is_digit(#[trigger] last1[i]) by {
                            if i < last0.len() {
                                assert(last1[i] == last0[i]);
                            }
                        }
                    }
                }
            } else {
                cur_ok = false;
                proof {
                    assert(!is_digit(last1[last1.len() - 1]));
                }
            }
            cur_len = cur_len + 1;
            proof {
                let f1 = fields(s1);
                assert(f1.last() == last1);
                assert forall|i: int| 0 <= i < f1.len() - 1 implies #[trigger] f1[i] == f0[i] by {}
                assert(all_ok == forall|i: int| 0 <= i < f1.len() - 1 ==> valid_index(#[trigger] f1[i])) by {
                    if all_ok {
                        assert forall|i: int| 0 <= i < f1.len() - 1 implies valid_index(#[trigger] f1[i]) by {
                            assert(f1[i] == f0[i]);
                        }
                    } else {
                        let j = choose|i: int| 0 <= i < f0.len() - 1 && !valid_index(#[trigger] f0[i]);
                        assert(f1[j] == f0[j]);
                    }
                }
            }
        }
        k = k + 1;
    }
    proof {
        assert(line@.subrange(0, line@.len() as int) =~= line@);
    }
    if all_ok && cur_ok && cur_len >= 1 && done.len() == 15 {
        done.push(cur);
        proof {
            let f = fields(line@);
            assert forall|i: int| 0 <= i < 16 implies valid_index(#[trigger] f[i]) by {
                if i < 15 {
                    assert(valid_index(f[i]));
                }
            }
            assert forall|i: int| 0 <= i < 16 implies #[trigger] done@[i] == decimal(f[i]) by {
                if i < 15 {
                    assert(valid_index(f[i]));
                }
            }
        }
        Some(done)
    } else {
        proof {
            let f = fields(line@);
            if valid_patch_line(line@) {
                assert(valid_index(f[15]));
                assert(f.last() == f[15]);
                assert forall|i: int| 0 <= i < f.len() - 1 implies valid_index(#[trigger] f[i]) by {}
            }
        }
        None
    }
}

} // verus!
