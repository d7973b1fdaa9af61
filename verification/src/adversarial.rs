//! Adversarial inputs: malformed UTF-8 and unusual file names. Oversized and random
//! files are written from [`crate::mock::bytes`].
use vstd::prelude::*;
use vstd::utf8::{encode_utf8, valid_utf8, length_of_first_scalar, pop_first_scalar};
use vstd::string::StrSliceExecFns;
use crate::text::push_char;

verus! {

/// The bytes of the malformed UTF-8 file: an ASCII line, the bytes `FF FE FD FC` (no
/// UTF-8 decoder accepts them), then another ASCII line.
pub open spec fn malformed_utf8_spec() -> Seq<u8> {
    encode_utf8("valid ascii prefix\n"@) + seq![0xFFu8, 0xFEu8, 0xFDu8, 0xFCu8] + encode_utf8(
        "more after the bad bytes\n"@,
    )
}

/// Valid UTF-8 never holds the byte `FF`.
pub proof fn lemma_valid_utf8_has_no_ff(b: Seq<u8>, i: int)
    requires
        valid_utf8(b),
        0 <= i < b.len(),
    ensures
        b[i] != 0xFFu8,
    decreases b.len(),
{
    let k = length_of_first_scalar(b);
    if i >= k {
        let rest = pop_first_scalar(b);
        assert(rest[i - k] == b[i]);
        lemma_valid_utf8_has_no_ff(rest, i - k);
    }
}

/// The contents of the malformed UTF-8 file. They are not valid UTF-8.
pub fn malformed_utf8_bytes() -> (out: Vec<u8>)
    ensures
        out@ == malformed_utf8_spec(),
        !valid_utf8(out@),
{
    let mut out = "valid ascii prefix\n".as_bytes_vec();
    let bad = out.len();
    out.push(0xFFu8);
    out.push(0xFEu8);
    out.push(0xFDu8);
    out.push(0xFCu8);
    let mut more = "more after the bad bytes\n".as_bytes_vec();
    out.append(&mut more);
    assert(out@ =~= malformed_utf8_spec());
    proof {
        if valid_utf8(out@) {
            lemma_valid_utf8_has_no_ff(out@, bad as int);
        }
    }
    out
}

/// `"long_name_"` followed by 120 `x`.
pub open spec fn long_name() -> Seq<char> {
    "long_name_"@ + Seq::new(120, |i: int| 'x')
}

/// The pool of unusual names, in order.
pub open spec fn name_pool() -> Seq<Seq<char>> {
    seq![
        ".hidden_file"@,
        "with space.txt"@,
        "with-many-dashes-in-name.txt"@,
        "résumé.tex"@,
        "файл.txt"@,
        "ファイル.txt"@,
        "emoji-✅-name.txt"@,
        long_name(),
        "trailing.dot."@,
        "no_extension"@,
    ]
}

/// `n` can name a file on common file systems: non-empty, neither `/` nor NUL in it,
/// and at most 255 bytes in UTF-8.
pub open spec fn usable_name(n: Seq<char>) -> bool {
    &&& n.len() > 0
    &&& forall|k: int| 0 <= k < n.len() ==> #[trigger] n[k] != '/' && n[k] != '\0'
    &&& encode_utf8(n).len() <= 255
}

proof fn lemma_encode_len_bound(s: Seq<char>)
    ensures
        encode_utf8(s).len() <= 4 * s.len(),
    decreases s.len(),
{
    if s.len() > 0 {
        lemma_encode_len_bound(s.drop_first());
    }
}

proof fn lemma_encode_len_ascii(s: Seq<char>)
    requires
        forall|k: int| 0 <= k < s.len() ==> (#[trigger] s[k] as u32) < 0x80,
    ensures
        encode_utf8(s).len() == s.len(),
    decreases s.len(),
{
    if s.len() > 0 {
        assert((s[0] as u32) < 0x80);
        assert forall|k: int| 0 <= k < s.drop_first().len() implies (#[trigger] s.drop_first()[k]
            as u32) < 0x80 by {
            assert(s.drop_first()[k] == s[k + 1]);
        }
        lemma_encode_len_ascii(s.drop_first());
    }
}

/// The unusual names can all name files, and no two are the same.
pub proof fn lemma_unusual_names_are_file_names()
    ensures
        forall|i: int| 0 <= i < name_pool().len() ==> usable_name(#[trigger] name_pool()[i]),
        forall|i: int, j: int|
            0 <= i < j < name_pool().len() ==> #[trigger] name_pool()[i] != #[trigger] name_pool()[j],
{
    reveal_strlit(".hidden_file");
    reveal_strlit("with space.txt");
    reveal_strlit("with-many-dashes-in-name.txt");
    reveal_strlit("résumé.tex");
    reveal_strlit("файл.txt");
    reveal_strlit("ファイル.txt");
    reveal_strlit("emoji-✅-name.txt");
    reveal_strlit("long_name_");
    reveal_strlit("trailing.dot.");
    reveal_strlit("no_extension");
    let p = name_pool();
    assert forall|i: int| 0 <= i < p.len() implies usable_name(#[trigger] p[i]) by {
        if i == 7 {
            let n = long_name();
            assert forall|k: int| 0 <= k < n.len() implies (#[trigger] n[k] as u32) < 0x80 by {
                if k >= 10 {
                    assert(n[k] == 'x');
                }
            }
            lemma_encode_len_ascii(n);
        } else {
            lemma_encode_len_bound(p[i]);
        }
    }
    assert(p[0][0] == '.' && p[9][0] == 'n' && p[4][0] == 'ф' && p[5][0] == 'フ');
}

/// The pool of unusual names is, in this order: `.hidden_file`, `with space.txt`,
/// `with-many-dashes-in-name.txt`, `résumé.tex`, `файл.txt`, `ファイル.txt`,
/// `emoji-✅-name.txt`, `long_name_` followed by 120 `x` (130 characters),
/// `trailing.dot.` and `no_extension`.
pub proof fn lemma_name_pool_order()
    ensures
        name_pool().len() == 10,
        name_pool()[0] == ".hidden_file"@,
        name_pool()[1] == "with space.txt"@,
        name_pool()[2] == "with-many-dashes-in-name.txt"@,
        name_pool()[3] == "résumé.tex"@,
        name_pool()[4] == "файл.txt"@,
        name_pool()[5] == "ファイル.txt"@,
        name_pool()[6] == "emoji-✅-name.txt"@,
        name_pool()[7].len() == 130,
        name_pool()[7].take(10) == "long_name_"@,
        forall|k: int| 10 <= k < 130 ==> #[trigger] name_pool()[7][k] == 'x',
        name_pool()[8] == "trailing.dot."@,
        name_pool()[9] == "no_extension"@,
{
    reveal_strlit("long_name_");
    assert(name_pool()[7].take(10) =~= "long_name_"@);
}

fn make_long_name() -> (s: String)
    ensures
        s@ == long_name(),
{
    let mut s = "long_name_".to_string();
    let ghost head = s@;
    let mut i: usize = 0;
    while i < 120
        invariant
            i <= 120,
            s@ == head + Seq::new(i as nat, |j: int| 'x'),
        decreases 120 - i,
    {
        push_char(&mut s, 'x');
        assert(Seq::new((i + 1) as nat, |j: int| 'x') =~= Seq::new(i as nat, |j: int| 'x').push(
            'x',
        ));
        i = i + 1;
    }
    s
}

/// Names valid on most file systems that exercise edge cases (hidden, spaces, accents,
/// Cyrillic, Japanese, emoji, a 130-character name, a trailing dot, no extension):
/// the first `count` of the ten, or all ten when `count` is larger.
pub fn unusual_names(count: usize) -> (names: Vec<String>)
    ensures
        names.deep_view() == name_pool().take(if count < 10 { count as int } else { 10 }),
        forall|i: int| 0 <= i < names.len() ==> usable_name(#[trigger] names.deep_view()[i]),
        forall|i: int, j: int|
            0 <= i < j < names.len() ==> #[trigger] names.deep_view()[i]
                != #[trigger] names.deep_view()[j],
{
    proof {
        lemma_unusual_names_are_file_names();
    }
    let mut pool: Vec<String> = Vec::new();
    pool.push(".hidden_file".to_string());
    pool.push("with space.txt".to_string());
    pool.push("with-many-dashes-in-name.txt".to_string());
    pool.push("résumé.tex".to_string());
    pool.push("файл.txt".to_string());
    pool.push("ファイル.txt".to_string());
    pool.push("emoji-✅-name.txt".to_string());
    pool.push(make_long_name());
    pool.push("trailing.dot.".to_string());
    pool.push("no_extension".to_string());
    assert(pool.deep_view() =~= name_pool());
    let mut names: Vec<String> = Vec::new();
    let mut i: usize = 0;
    while i < count && i < pool.len()
        invariant
            pool.deep_view() == name_pool(),
            pool.len() == 10,
            i <= 10,
            i <= count,
            names.deep_view() == name_pool().take(i as int),
        decreases 10 - i,
    {
        let ghost before = names.deep_view();
        let name = pool[i].clone();
        assert(pool.deep_view()[i as int] == pool[i as int]@);
        names.push(name);
        assert(names.deep_view() =~= before.push(name@));
        assert(names.deep_view() =~= name_pool().take(i + 1));
        i = i + 1;
    }
    assert(i == if count < 10 { count as int } else { 10 });
    names
}

} // verus!
