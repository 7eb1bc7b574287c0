//! Small byte-string helpers shared by the wire grammar.

use vstd::prelude::*;

verus! {

/// Exact comparison of two byte strings.
pub fn bytes_eq(a: &[u8], b: &[u8]) -> (r: bool)
    ensures
        r == (a@ == b@),
{
    if a.len() != b.len() {
        assert(a@ != b@) by {
            assert(a@.len() != b@.len());
        }
        return false;
    }
    let mut i: usize = 0;
    while i < a.len()
        invariant
            0 <= i <= a@.len(),
            a@.len() == b@.len(),
            forall|j: int| 0 <= j < i ==> a@[j] == b@[j],
        decreases a@.len() - i,
    {
        if a[i] != b[i] {
            return false;
        }
        i = i + 1;
    }
    proof {
        assert(a@ =~= b@);
    }
    true
}

/// Append a byte string to a buffer.
pub fn append_bytes(out: &mut Vec<u8>, s: &[u8])
    ensures
        final(out)@ == old(out)@ + s@,
{
    let mut i: usize = 0;
    while i < s.len()
        invariant
            0 <= i <= s@.len(),
            out@ == old(out)@ + s@.take(i as int),
        decreases s@.len() - i,
    {
        out.push(s[i]);
        proof {
            assert(old(out)@ + s@.take(i + 1) =~= (old(out)@ + s@.take(i as int)).push(
                s@[i as int],
            ));
        }
        i = i + 1;
    }
    proof {
        assert(s@.take(s@.len() as int) =~= s@);
    }
}

/// Split a byte string at every occurrence of `sep`.
///
/// The result always holds one field more than the string holds separators;
/// the empty string splits into one empty field.
pub open spec fn spec_split(s: Seq<u8>, sep: u8) -> Seq<Seq<u8>>
    decreases s.len(),
{
    if s.len() == 0 {
        seq![Seq::<u8>::empty()]
    } else if s[0] == sep {
        seq![Seq::<u8>::empty()] + spec_split(s.drop_first(), sep)
    } else {
        let rest = spec_split(s.drop_first(), sep);
        seq![seq![s[0]] + rest[0]] + rest.skip(1)
    }
}

/// A split always yields at least one field.
pub proof fn lemma_split_len(s: Seq<u8>, sep: u8)
    ensures
        spec_split(s, sep).len() >= 1,
    decreases s.len(),
{
    if s.len() > 0 {
        lemma_split_len(s.drop_first(), sep)
    }
}

/// Splitting the concatenation `a + [sep] + b` splits `a` and `b` separately.
pub proof fn lemma_split_concat(a: Seq<u8>, b: Seq<u8>, sep: u8)
    requires
        forall|j: int| 0 <= j < a.len() ==> a[j] != sep,
    ensures
        spec_split(a + seq![sep] + b, sep) =~= seq![a] + spec_split(b, sep),
    decreases a.len(),
{
    lemma_split_len(b, sep);
    if a.len() == 0 {
        let s = a + seq![sep] + b;
        assert(s.len() > 0 && s[0] == sep);
        assert(s.drop_first() =~= b);
        assert(a =~= Seq::<u8>::empty());
    } else {
        let s = a + seq![sep] + b;
        assert(s[0] == a[0] && a[0] != sep);
        assert(s.drop_first() =~= a.drop_first() + seq![sep] + b);
        lemma_split_concat(a.drop_first(), b, sep);
        let rest = spec_split(s.drop_first(), sep);
        assert(rest =~= seq![a.drop_first()] + spec_split(b, sep));
        assert(rest[0] == a.drop_first());
        assert(seq![s[0]] + rest[0] =~= a);
        assert(rest.skip(1) =~= spec_split(b, sep));
    }
}

/// Appending one separator-terminated, separator-free field extends a split
/// whose last field is empty by that field.
pub proof fn lemma_split_append_field(x: Seq<u8>, fields: Seq<Seq<u8>>, line: Seq<u8>, sep: u8)
    requires
        spec_split(x, sep) == fields + seq![Seq::<u8>::empty()],
        forall|j: int| 0 <= j < line.len() ==> line[j] != sep,
    ensures
        spec_split(x + line + seq![sep], sep) =~= fields + seq![line] + seq![Seq::<u8>::empty()],
    decreases x.len(),
{
    lemma_split_len(x, sep);
    if x.len() == 0 {
        assert(fields =~= Seq::<Seq<u8>>::empty()) by {
            assert(spec_split(x, sep).len() == 1);
        }
        assert(x + line + seq![sep] =~= line + seq![sep] + Seq::<u8>::empty());
        lemma_split_concat(line, Seq::<u8>::empty(), sep);
        assert(spec_split(line + seq![sep] + Seq::<u8>::empty(), sep) =~= seq![line] + seq![
            Seq::<u8>::empty(),
        ]);
    } else if x[0] == sep {
        let xr = x.drop_first();
        assert(spec_split(x, sep) == seq![Seq::<u8>::empty()] + spec_split(xr, sep));
        lemma_split_len(xr, sep);
        assert(spec_split(x, sep).len() == 1 + spec_split(xr, sep).len());
        assert(fields.len() >= 1);
        assert((fields + seq![Seq::<u8>::empty()])[0] == fields[0]);
        assert(fields[0] =~= Seq::<u8>::empty());
        assert(spec_split(xr, sep) =~= spec_split(x, sep).skip(1));
        assert(spec_split(x, sep).skip(1) =~= fields.skip(1) + seq![Seq::<u8>::empty()]);
        lemma_split_append_field(xr, fields.skip(1), line, sep);
        assert((x + line + seq![sep]).drop_first() =~= xr + line + seq![sep]);
        assert((x + line + seq![sep])[0] == sep);
        assert(spec_split(x + line + seq![sep], sep) =~= seq![Seq::<u8>::empty()] + (fields.skip(1)
            + seq![line] + seq![Seq::<u8>::empty()]));
    } else {
        let xr = x.drop_first();
        let rest = spec_split(xr, sep);
        lemma_split_len(xr, sep);
        assert(spec_split(x, sep) == seq![seq![x[0]] + rest[0]] + rest.skip(1));
        assert(spec_split(x, sep).len() == 1 + rest.skip(1).len());
        if fields.len() == 0 {
            assert(spec_split(x, sep) =~= seq![Seq::<u8>::empty()]);
            assert(spec_split(x, sep)[0].len() == 0);
            assert((seq![seq![x[0]] + rest[0]] + rest.skip(1))[0] == seq![x[0]] + rest[0]);
            assert(false);
        }
        assert((fields + seq![Seq::<u8>::empty()])[0] == fields[0]);
        assert(fields[0] == seq![x[0]] + rest[0]);
        assert(rest.skip(1) =~= spec_split(x, sep).skip(1));
        assert(spec_split(x, sep).skip(1) =~= fields.skip(1) + seq![Seq::<u8>::empty()]);
        let rhs = seq![rest[0]] + fields.skip(1) + seq![Seq::<u8>::empty()];
        assert(rest.len() == rhs.len());
        assert forall|i: int| 0 <= i < rest.len() implies rest[i] == rhs[i] by {
            if i >= 1 {
                assert(rest[i] == rest.skip(1)[i - 1]);
                assert(rhs[i] == (fields.skip(1) + seq![Seq::<u8>::empty()])[i - 1]);
            }
        }
        assert(rest =~= rhs);
        lemma_split_append_field(xr, seq![rest[0]] + fields.skip(1), line, sep);
        let t = spec_split(xr + line + seq![sep], sep);
        assert(t =~~= seq![rest[0]] + fields.skip(1) + seq![line] + seq![Seq::<u8>::empty()]);
        assert((x + line + seq![sep]).drop_first() =~= xr + line + seq![sep]);
        assert((x + line + seq![sep])[0] == x[0]);
        assert(spec_split(x + line + seq![sep], sep) == seq![seq![x[0]] + t[0]] + t.skip(1));
        assert(t[0] == rest[0]);
        assert(t.skip(1) =~~= fields.skip(1) + seq![line] + seq![Seq::<u8>::empty()]);
        assert(seq![seq![x[0]] + t[0]] + t.skip(1) =~~= fields + seq![line] + seq![
            Seq::<u8>::empty(),
        ]);
    }
}

/// Splitting a separator-free string yields that string as the only field.
pub proof fn lemma_split_whole(s: Seq<u8>, sep: u8)
    requires
        forall|j: int| 0 <= j < s.len() ==> s[j] != sep,
    ensures
        spec_split(s, sep) =~= seq![s],
    decreases s.len(),
{
    if s.len() == 0 {
        assert(s =~= Seq::<u8>::empty());
    } else {
        lemma_split_whole(s.drop_first(), sep);
        let rest = spec_split(s.drop_first(), sep);
        assert(rest == seq![s.drop_first()]);
        assert(seq![s[0]] + rest[0] =~= s);
        assert(rest.skip(1) =~= Seq::<Seq<u8>>::empty());
        assert(spec_split(s, sep) == seq![seq![s[0]] + rest[0]] + rest.skip(1));
    }
}

/// Split a byte string at every occurrence of `sep`.
pub fn split_bytes(s: &[u8], sep: u8) -> (r: Vec<Vec<u8>>)
    ensures
        r.deep_view() == spec_split(s@, sep),
{
    let mut fields: Vec<Vec<u8>> = Vec::new();
    fields.push(Vec::new());
    let mut i: usize = s.len();
    proof {
        assert(s@.skip(i as int) =~= Seq::<u8>::empty());
    }
    while i > 0
        invariant
            0 <= i <= s@.len(),
            fields.len() >= 1,
            fields@.len() == spec_split(s@.skip(i as int), sep).len(),
            forall|k: int|
                0 <= k < fields@.len() ==> #[trigger] fields@[k]@ == spec_split(
                    s@.skip(i as int),
                    sep,
                )[k],
        decreases i,
    {
        let ghost prev = spec_split(s@.skip(i as int), sep);
        let b = s[i - 1];
        proof {
            assert(s@.skip(i - 1).len() > 0);
            assert(s@.skip(i - 1)[0] == b);
            assert(s@.skip(i - 1).drop_first() =~= s@.skip(i as int));
        }
        let ghost cur = spec_split(s@.skip(i - 1), sep);
        if b == sep {
            let ghost before = fields@;
            fields.insert(0, Vec::new());
            proof {
                assert(cur == seq![Seq::<u8>::empty()] + prev);
                assert forall|k: int| 0 <= k < fields@.len() implies #[trigger] fields@[k]@
                    == cur[k] by {
                    assert(fields@ == before.insert(0, fields@[0]));
                    if k > 0 {
                        assert(fields@[k] == before[k - 1]);
                        assert(cur[k] == prev[k - 1]);
                    } else {
                        assert(fields@[0]@ =~= Seq::<u8>::empty());
                    }
                }
            }
        } else {
            let ghost before = fields@;
            let mut first = fields.remove(0);
            first.insert(0, b);
            fields.insert(0, first);
            proof {
                assert(cur == seq![seq![b] + prev[0]] + prev.skip(1));
                assert(fields@.len() == before.len());
                assert(fields@[0]@ =~= seq![b] + before[0]@);
                assert forall|k: int| 0 <= k < fields@.len() implies #[trigger] fields@[k]@
                    == cur[k] by {
                    if k > 0 {
                        assert(fields@[k] == before[k]);
                        assert(cur[k] == prev.skip(1)[k - 1]);
                        assert(prev.skip(1)[k - 1] == prev[k]);
                    } else {
                        assert(cur[0] == seq![b] + prev[0]);
                        assert(before[0]@ == prev[0]);
                    }
                }
            }
        }
        i = i - 1;
    }
    proof {
        assert(s@.skip(0) =~= s@);
        assert(fields.deep_view() =~~= spec_split(s@, sep));
    }
    fields
}

} // verus!
