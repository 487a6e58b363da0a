use vstd::prelude::*;

use crate::aggregate::agg_lines;
use crate::aggregate::apply_binding;
use crate::aggregate::fold_line;
use crate::aggregate::spec_aggregate;
use crate::decode::decode_tokens;
use crate::decode::is_export_line;
use crate::decode::is_self_ref;
use crate::decode::spec_decode;
use crate::errors::EnvError;
use crate::resolve::dollar_idx;
use crate::resolve::name_end;
use crate::resolve::raw_ref_name;
use crate::resolve::spec_subst;
use crate::resolve::token_malformed;
use crate::text::is_quote;
use crate::text::lemma_find_from_first;
use crate::text::lemma_find_from_none;
use crate::text::lemma_split_no_delim;
use crate::text::lemma_split_prefix;
use crate::text::lemma_strip_quotes_concat;
use crate::text::lemma_strip_quotes_id;
use crate::text::split_seq;
use crate::text::strip_quotes;

verus! {

proof fn lemma_agg_lines_skip_all(lines: Seq<Seq<char>>, m: Map<Seq<char>, Seq<Seq<char>>>, i: int)
    requires
        0 <= i,
        forall|j: int| i <= j < lines.len() ==> !is_export_line(#[trigger] lines[j]),
    ensures
        agg_lines(lines, m, i) == Ok::<Map<Seq<char>, Seq<Seq<char>>>, EnvError>(m),
    decreases lines.len() - i,
{
    if i < lines.len() {
        lemma_agg_lines_skip_all(lines, m, i + 1);
    }
}

/// Law: a profile text none of whose lines is an `export` line aggregates
/// to exactly the seed mapping, unchanged.
pub proof fn lemma_aggregate_no_exports(text: Seq<char>, seed: Map<Seq<char>, Seq<Seq<char>>>)
    requires
        forall|j: int|
            0 <= j < split_seq(text, '\n').len() ==> !is_export_line(
                #[trigger] split_seq(text, '\n')[j],
            ),
    ensures
        spec_aggregate(text, seed) == Ok::<Map<Seq<char>, Seq<Seq<char>>>, EnvError>(seed),
{
    lemma_agg_lines_skip_all(split_seq(text, '\n'), seed, 0);
}

/// Law: a well-formed single-value line `export K=V`, whose value carries
/// no reference, separator or quote, binds `K` to exactly `[V]`,
/// overwriting any prior binding for `K`.
pub proof fn lemma_single_value_line(k: Seq<char>, v: Seq<char>, m: Map<Seq<char>, Seq<Seq<char>>>)
    requires
        !k.contains('='),
        !v.contains('$'),
        !v.contains(':'),
        !v.contains('"'),
        !v.contains('\''),
    ensures
        fold_line(m, "export "@ + k + "="@ + v) == Ok::<Map<Seq<char>, Seq<Seq<char>>>, EnvError>(
            m.insert(k, seq![v]),
        ),
{
    reveal_strlit("export ");
    reveal_strlit("=");
    let line = "export "@ + k + "="@ + v;
    assert(line.subrange(0, 7) =~= "export "@);
    assert(is_export_line(line));
    let rest = line.subrange(7, line.len() as int);
    assert(rest =~= k + seq!['='] + v);
    assert(rest[k.len() as int] == '=');
    assert forall|j: int| 0 <= j < k.len() implies rest[j] != '=' by {
        assert(rest[j] == k[j]);
        if k[j] == '=' {
            assert(k.contains('='));
        }
    }
    lemma_find_from_first(rest, '=', 0, k.len() as int);
    let raw = rest.subrange(k.len() as int + 1, rest.len() as int);
    assert(rest.subrange(0, k.len() as int) =~= k);
    assert(raw =~= v);
    assert forall|j: int| 0 <= j < v.len() implies !is_quote(v[j]) by {
        if v[j] == '"' {
            assert(v.contains('"'));
        }
        if v[j] == '\'' {
            assert(v.contains('\''));
        }
    }
    lemma_strip_quotes_id(v);
    lemma_split_no_delim(v, ':');
    assert(split_seq(strip_quotes(raw), ':') == seq![v]);
    assert(seq![v][0] == v);
    assert forall|j: int| 0 <= j < v.len() implies v[j] != '$' by {
        if v[j] == '$' {
            assert(v.contains('$'));
        }
    }
    lemma_find_from_none(v, '$', 0);
    assert(!token_malformed(v));
    assert(spec_subst(v, m) == Ok::<Seq<char>, EnvError>(v));
    assert(spec_decode(line, m) == Ok::<(Seq<char>, Seq<Seq<char>>, bool), EnvError>(
        (k, seq![v], false),
    ));
    assert(apply_binding(m, k, seq![v], false) == m.insert(k, seq![v]));
}

/// Law: a profile file holding the one well-formed single-value line
/// `export K=V`, with `V` free of references, separators and quotes,
/// aggregates to the seed with `K` bound to exactly `[V]`, overriding any
/// prior seed value for `K`.
pub proof fn lemma_single_value_profile(
    k: Seq<char>,
    v: Seq<char>,
    seed: Map<Seq<char>, Seq<Seq<char>>>,
)
    requires
        !k.contains('='),
        !k.contains('\n'),
        !v.contains('$'),
        !v.contains(':'),
        !v.contains('"'),
        !v.contains('\''),
        !v.contains('\n'),
    ensures
        spec_aggregate("export "@ + k + "="@ + v, seed) == Ok::<
            Map<Seq<char>, Seq<Seq<char>>>,
            EnvError,
        >(seed.insert(k, seq![v])),
{
    reveal_strlit("export ");
    reveal_strlit("=");
    let line = "export "@ + k + "="@ + v;
    assert(!line.contains('\n')) by {
        assert forall|j: int| 0 <= j < line.len() implies line[j] != '\n' by {
            if j < 7 {
                assert(line[j] == "export "@[j]);
            } else if j < 7 + k.len() {
                assert(line[j] == k[j - 7]);
                if k[j - 7] == '\n' {
                    assert(k.contains('\n'));
                }
            } else if j == 7 + k.len() {
                assert(line[j] == '=');
            } else {
                assert(line[j] == v[j - 8 - k.len()]);
                if v[j - 8 - k.len()] == '\n' {
                    assert(v.contains('\n'));
                }
            }
        }
        if line.contains('\n') {
            let w = choose|w: int| 0 <= w < line.len() && line[w] == '\n';
        }
    }
    lemma_split_no_delim(line, '\n');
    lemma_single_value_line(k, v, seed);
    assert(seq![line][0] == line);
    assert(agg_lines(seq![line], seed.insert(k, seq![v]), 1) == Ok::<
        Map<Seq<char>, Seq<Seq<char>>>,
        EnvError,
    >(seed.insert(k, seq![v])));
    assert(agg_lines(seq![line], seed, 0) == Ok::<Map<Seq<char>, Seq<Seq<char>>>, EnvError>(
        seed.insert(k, seq![v]),
    ));
}

/// Law: a self-referencing multi-value line `export K="X:$K"`, decoded
/// while the mapping binds `K` to `[Y]`, drops the self-token, keeps the
/// existing value and puts the new one after it: `K` is then bound to
/// `[Y, X]` (existing order preserved, new values last).
pub proof fn lemma_self_ref_line(
    k: Seq<char>,
    x: Seq<char>,
    y: Seq<char>,
    m: Map<Seq<char>, Seq<Seq<char>>>,
)
    requires
        m.contains_key(k),
        m[k] == seq![y],
        k.len() > 0,
        !k.contains('='),
        !k.contains(':'),
        !k.contains('/'),
        !k.contains('$'),
        !k.contains('"'),
        !k.contains('\''),
        !x.contains('$'),
        !x.contains(':'),
        !x.contains('"'),
        !x.contains('\''),
    ensures
        fold_line(m, "export "@ + k + "=\""@ + x + ":$"@ + k + "\""@) == Ok::<
            Map<Seq<char>, Seq<Seq<char>>>,
            EnvError,
        >(m.insert(k, seq![y, x])),
{
    reveal_strlit("export ");
    reveal_strlit("=\"");
    reveal_strlit(":$");
    reveal_strlit("\"");
    let line = "export "@ + k + "=\""@ + x + ":$"@ + k + "\""@;
    let t1 = seq!['$'] + k;
    let body = x + seq![':'] + t1;
    let rawv = seq!['"'] + body + seq!['"'];
    assert(line.subrange(0, 7) =~= "export "@);
    assert(is_export_line(line));
    let rest = line.subrange(7, line.len() as int);
    assert(rest =~= k + seq!['='] + rawv);
    assert(rest[k.len() as int] == '=');
    assert forall|j: int| 0 <= j < k.len() implies rest[j] != '=' by {
        assert(rest[j] == k[j]);
        if k[j] == '=' {
            assert(k.contains('='));
        }
    }
    lemma_find_from_first(rest, '=', 0, k.len() as int);
    let raw = rest.subrange(k.len() as int + 1, rest.len() as int);
    assert(rest.subrange(0, k.len() as int) =~= k);
    assert(raw =~= rawv);
    // quote stripping leaves exactly the body
    assert forall|j: int| 0 <= j < body.len() implies !is_quote(body[j]) by {
        if j < x.len() {
            assert(body[j] == x[j]);
            if x[j] == '"' {
                assert(x.contains('"'));
            }
            if x[j] == '\'' {
                assert(x.contains('\''));
            }
        } else if j == x.len() {
            assert(body[j] == ':');
        } else if j == x.len() + 1 {
            assert(body[j] == '$');
        } else {
            assert(body[j] == k[j - x.len() - 2]);
            if k[j - x.len() - 2] == '"' {
                assert(k.contains('"'));
            }
            if k[j - x.len() - 2] == '\'' {
                assert(k.contains('\''));
            }
        }
    }
    lemma_strip_quotes_id(body);
    lemma_strip_quotes_concat(seq!['"'] + body, seq!['"']);
    lemma_strip_quotes_concat(seq!['"'], body);
    assert(strip_quotes(Seq::<char>::empty()) == Seq::<char>::empty());
    assert(seq!['"'].drop_last() =~= Seq::<char>::empty());
    assert(strip_quotes(seq!['"']) =~= Seq::<char>::empty());
    assert(rawv =~= (seq!['"'] + body) + seq!['"']);
    assert(strip_quotes(rawv) =~= body);
    // the body splits into the plain token and the self-token
    assert(!t1.contains(':')) by {
        if t1.contains(':') {
            let w = choose|w: int| 0 <= w < t1.len() && t1[w] == ':';
            if w > 0 {
                assert(k[w - 1] == ':');
                assert(k.contains(':'));
            }
        }
    }
    lemma_split_prefix(x, ':', t1);
    lemma_split_no_delim(t1, ':');
    let toks = split_seq(strip_quotes(raw), ':');
    assert(toks =~= seq![x, t1]);
    // the plain token resolves to itself
    assert forall|j: int| 0 <= j < x.len() implies x[j] != '$' by {
        if x[j] == '$' {
            assert(x.contains('$'));
        }
    }
    lemma_find_from_none(x, '$', 0);
    assert(!token_malformed(x));
    assert(!is_self_ref(x, k)) by {
        if x.len() > 0 && x[0] == '$' {
            assert(x.contains('$'));
        }
    }
    assert(spec_subst(x, m) == Ok::<Seq<char>, EnvError>(x));
    // the self-token references exactly `k`
    assert(t1[0] == '$');
    assert(dollar_idx(t1) == Some(0int));
    assert forall|j: int| 1 <= j < t1.len() implies t1[j] != '/' by {
        assert(t1[j] == k[j - 1]);
        if k[j - 1] == '/' {
            assert(k.contains('/'));
        }
    }
    lemma_find_from_none(t1, '/', 1);
    assert(name_end(t1, 0) == t1.len() as int);
    assert(raw_ref_name(t1, 0) =~= k);
    assert(!token_malformed(t1));
    assert(is_self_ref(t1, k));
    // fold the two tokens
    assert(toks.drop_first() =~= seq![t1]);
    assert(seq![t1].drop_first() =~= Seq::<Seq<char>>::empty());
    assert(decode_tokens(Seq::<Seq<char>>::empty(), k, m) == Ok::<
        (Seq<Seq<char>>, bool),
        EnvError,
    >((Seq::empty(), false)));
    assert(decode_tokens(seq![t1], k, m) == Ok::<(Seq<Seq<char>>, bool), EnvError>(
        (Seq::empty(), true),
    ));
    assert(toks[0] == x);
    assert(seq![x] + Seq::<Seq<char>>::empty() =~= seq![x]);
    assert(decode_tokens(toks, k, m) == Ok::<(Seq<Seq<char>>, bool), EnvError>((seq![x], true)));
    assert(toks.len() == 2);
    assert(spec_decode(line, m) == Ok::<(Seq<char>, Seq<Seq<char>>, bool), EnvError>(
        (k, seq![x], true),
    ));
    assert(m[k] + seq![x] =~= seq![y, x]);
    assert(apply_binding(m, k, seq![x], true) == m.insert(k, seq![y, x]));
}

/// Law: a profile file holding the one self-referencing multi-value line
/// `export K="X:$K"`, aggregated over a seed that binds `K` to `[Y]`,
/// drops the self-token, keeps the existing value and puts the new one
/// after it: `K` ends up bound to `[Y, X]`.
pub proof fn lemma_self_ref_profile(
    k: Seq<char>,
    x: Seq<char>,
    y: Seq<char>,
    seed: Map<Seq<char>, Seq<Seq<char>>>,
)
    requires
        seed.contains_key(k),
        seed[k] == seq![y],
        k.len() > 0,
        !k.contains('='),
        !k.contains(':'),
        !k.contains('/'),
        !k.contains('$'),
        !k.contains('"'),
        !k.contains('\''),
        !k.contains('\n'),
        !x.contains('$'),
        !x.contains(':'),
        !x.contains('"'),
        !x.contains('\''),
        !x.contains('\n'),
    ensures
        spec_aggregate("export "@ + k + "=\""@ + x + ":$"@ + k + "\""@, seed) == Ok::<
            Map<Seq<char>, Seq<Seq<char>>>,
            EnvError,
        >(seed.insert(k, seq![y, x])),
{
    reveal_strlit("export ");
    reveal_strlit("=\"");
    reveal_strlit(":$");
    reveal_strlit("\"");
    let line = "export "@ + k + "=\""@ + x + ":$"@ + k + "\""@;
    let kl = k.len() as int;
    let xl = x.len() as int;
    assert(!line.contains('\n')) by {
        assert forall|j: int| 0 <= j < line.len() implies line[j] != '\n' by {
            if j < 7 {
                assert(line[j] == "export "@[j]);
            } else if j < 7 + kl {
                assert(line[j] == k[j - 7]);
                if k[j - 7] == '\n' {
                    assert(k.contains('\n'));
                }
            } else if j < 9 + kl {
                assert(line[j] == "=\""@[j - 7 - kl]);
            } else if j < 9 + kl + xl {
                assert(line[j] == x[j - 9 - kl]);
                if x[j - 9 - kl] == '\n' {
                    assert(x.contains('\n'));
                }
            } else if j < 11 + kl + xl {
                assert(line[j] == ":$"@[j - 9 - kl - xl]);
            } else if j < 11 + 2 * kl + xl {
                assert(line[j] == k[j - 11 - kl - xl]);
                if k[j - 11 - kl - xl] == '\n' {
                    assert(k.contains('\n'));
                }
            } else {
                assert(line[j] == "\""@[j - 11 - 2 * kl - xl]);
            }
        }
        if line.contains('\n') {
            let w = choose|w: int| 0 <= w < line.len() && line[w] == '\n';
        }
    }
    lemma_split_no_delim(line, '\n');
    lemma_self_ref_line(k, x, y, seed);
    assert(seq![line][0] == line);
    assert(agg_lines(seq![line], seed.insert(k, seq![y, x]), 1) == Ok::<
        Map<Seq<char>, Seq<Seq<char>>>,
        EnvError,
    >(seed.insert(k, seq![y, x])));
    assert(agg_lines(seq![line], seed, 0) == Ok::<Map<Seq<char>, Seq<Seq<char>>>, EnvError>(
        seed.insert(k, seq![y, x]),
    ));
}

} // verus!
