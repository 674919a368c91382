//! The language preference list: a pure function from the two locale
//! environment values to an ordered, deduplicated list of language codes,
//! always terminated by the default code `"en"`.

use vstd::prelude::*;
use vstd::string::StrSliceExecFns;
use crate::dedup::{
    clear_duplicates, dedup_first, lemma_dedup_first_contains, lemma_dedup_first_last,
    lemma_dedup_first_no_duplicates, no_duplicates,
};
use crate::text::str_eq;

verus! {

broadcast use vstd::string::group_string_axioms;

/// Index of the first colon in `s`, or `s.len()` when there is none.
pub open spec fn first_colon(s: Seq<char>) -> nat
    decreases s.len(),
{
    if s.len() == 0 {
        0
    } else if s[0] == ':' {
        0
    } else {
        1 + first_colon(s.drop_first())
    }
}

proof fn lemma_first_colon(s: Seq<char>)
    ensures
        first_colon(s) <= s.len(),
        forall|j: int| 0 <= j < first_colon(s) ==> s[j] != ':',
        first_colon(s) < s.len() ==> s[first_colon(s) as int] == ':',
    decreases s.len(),
{
    if s.len() == 0 {
    } else if s[0] == ':' {
    } else {
        lemma_first_colon(s.drop_first());
        assert forall|j: int| 0 <= j < first_colon(s) implies s[j] != ':' by {
            if j > 0 {
                assert(s.drop_first()[j - 1] == s[j]);
            }
        }
        if first_colon(s) < s.len() {
            assert(s.drop_first()[first_colon(s) - 1] == s[first_colon(s) as int]);
        }
    }
}

/// The colon-separated segments of `s`; an empty input gives one empty segment.
pub open spec fn split_colon(s: Seq<char>) -> Seq<Seq<char>>
    decreases s.len(),
{
    let i = first_colon(s);
    if i >= s.len() {
        seq![s]
    } else {
        seq![s.subrange(0, i as int)] + split_colon(s.subrange(i as int + 1, s.len() as int))
    }
}

/// Split a locale list value on `':'`.
pub fn split_locales<'a>(s: &'a str) -> (r: Vec<&'a str>)
    ensures
        r.deep_view() == split_colon(s@),
{
    let n = s.unicode_len();
    let mut r: Vec<&'a str> = Vec::new();
    let mut start: usize = 0;
    let mut i: usize = 0;
    proof {
        assert(r.deep_view() =~= Seq::<Seq<char>>::empty());
        assert(s@.subrange(0, n as int) =~= s@);
        assert(Seq::<Seq<char>>::empty() + split_colon(s@) =~= split_colon(s@));
    }
    while i < n
        invariant
            n == s@.len(),
            start <= i <= n,
            forall|j: int| start <= j < i ==> s@[j] != ':',
            split_colon(s@) == r.deep_view() + split_colon(
                s@.subrange(start as int, n as int),
            ),
        decreases n - i,
    {
        if s.get_char(i) == ':' {
            let seg = s.substring_char(start, i);
            let ghost pre = r.deep_view();
            proof {
                let rem = s@.subrange(start as int, n as int);
                lemma_first_colon(rem);
                assert forall|j: int| 0 <= j < i - start implies rem[j] != ':' by {
                    assert(rem[j] == s@[start + j]);
                }
                assert(rem[i - start] == s@[i as int]);
                if first_colon(rem) < i - start {
                    assert(rem[first_colon(rem) as int] == ':');
                    assert(false);
                }
                if first_colon(rem) > i - start {
                    assert(false);
                }
                assert(rem.subrange(0, (i - start) as int) =~= s@.subrange(
                    start as int,
                    i as int,
                ));
                assert(rem.subrange((i - start + 1) as int, rem.len() as int) =~= s@.subrange(
                    (i + 1) as int,
                    n as int,
                ));
                assert(split_colon(rem) == seq![seg@] + split_colon(
                    s@.subrange((i + 1) as int, n as int),
                ));
            }
            r.push(seg);
            proof {
                assert(r.deep_view() =~= pre.push(seg@));
                assert(pre.push(seg@) + split_colon(s@.subrange((i + 1) as int, n as int)) =~= pre
                    + (seq![seg@] + split_colon(s@.subrange((i + 1) as int, n as int))));
            }
            start = i + 1;
        }
        i = i + 1;
    }
    let seg = s.substring_char(start, n);
    let ghost pre = r.deep_view();
    proof {
        let rem = s@.subrange(start as int, n as int);
        lemma_first_colon(rem);
        if first_colon(rem) < rem.len() {
            assert(rem[first_colon(rem) as int] == s@[start + first_colon(rem)]);
            assert(false);
        }
        assert(split_colon(rem) == seq![rem]);
        assert(seg@ == rem);
    }
    r.push(seg);
    proof {
        assert(r.deep_view() =~= pre.push(seg@));
        assert(pre.push(seg@) =~= pre + seq![seg@]);
    }
    r
}

/// The candidate language codes one locale value contributes: the
/// five-character region form when the value looks like `xx_YY`, then the
/// two-character language form unless the value is the sentinel `"POSIX"`.
pub open spec fn locale_codes(loc: Seq<char>) -> Seq<Seq<char>> {
    let region: Seq<Seq<char>> = if loc.len() >= 5 && loc[2] == '_' {
        seq![loc.subrange(0, 5)]
    } else {
        seq![]
    };
    let short: Seq<Seq<char>> = if loc.len() >= 2 && loc != "POSIX"@ {
        seq![loc.subrange(0, 2)]
    } else {
        seq![]
    };
    region + short
}

/// The codes of a whole candidate list, in order.
pub open spec fn locales_codes(locs: Seq<Seq<char>>) -> Seq<Seq<char>>
    decreases locs.len(),
{
    if locs.len() == 0 {
        Seq::empty()
    } else {
        locale_codes(locs[0]) + locales_codes(locs.drop_first())
    }
}

proof fn lemma_locales_codes_push(locs: Seq<Seq<char>>, x: Seq<char>)
    ensures
        locales_codes(locs.push(x)) == locales_codes(locs) + locale_codes(x),
    decreases locs.len(),
{
    if locs.len() == 0 {
        assert(locs.push(x).drop_first() =~= locs);
        assert(locale_codes(x) + locales_codes(locs) =~= locales_codes(locs) + locale_codes(x));
    } else {
        assert(locs.push(x)[0] == locs[0]);
        assert(locs.push(x).drop_first() =~= locs.drop_first().push(x));
        lemma_locales_codes_push(locs.drop_first(), x);
        assert(locale_codes(locs[0]) + (locales_codes(locs.drop_first()) + locale_codes(x)) =~= (
        locale_codes(locs[0]) + locales_codes(locs.drop_first())) + locale_codes(x));
    }
}

/// The full candidate locale list: the colon-separated locale-list value
/// followed by the primary locale value.
pub open spec fn candidate_locales(lang: Seq<char>, language: Option<Seq<char>>) -> Seq<Seq<char>> {
    (match language {
        Option::Some(l) => split_colon(l),
        Option::None => split_colon(Seq::empty()),
    }).push(lang)
}

/// The language preference list for the two environment values.
pub open spec fn language_list(lang: Option<Seq<char>>, language: Option<Seq<char>>) -> Seq<
    Seq<char>,
> {
    match lang {
        Option::None => seq!["en"@],
        Option::Some(l) => dedup_first(
            locales_codes(candidate_locales(l, language)).push("en"@),
        ),
    }
}

pub open spec fn opt_str_view(o: Option<&str>) -> Option<Seq<char>> {
    match o {
        Option::None => Option::None,
        Option::Some(s) => Option::Some(s@),
    }
}

/// Build the ordered, deduplicated language preference list from the primary
/// locale value and the colon-separated locale-list value.
pub fn get_languages(env_lang: Option<&str>, env_language: Option<&str>) -> (r: Vec<String>)
    ensures
        r.deep_view() == language_list(opt_str_view(env_lang), opt_str_view(env_language)),
{
    match env_lang {
        Option::None => {
            let mut v: Vec<String> = Vec::new();
            v.push("en".to_owned());
            proof {
                assert(v.deep_view() =~= seq!["en"@]);
            }
            v
        },
        Option::Some(lang) => {
            let list_src: &str = match env_language {
                Option::Some(l) => l,
                Option::None => "",
            };
            proof {
                reveal_strlit("");
                assert(""@ =~= Seq::<char>::empty());
            }
            let mut locales = split_locales(list_src);
            let ghost split = locales.deep_view();
            locales.push(lang);
            let ghost locs = locales.deep_view();
            proof {
                assert(locs =~= split.push(lang@));
                assert(locs == candidate_locales(lang@, opt_str_view(env_language)));
            }
            let mut codes: Vec<String> = Vec::new();
            let mut i: usize = 0;
            while i < locales.len()
                invariant
                    i <= locales.len(),
                    locales.deep_view() == locs,
                    locales@.len() == locs.len(),
                    codes.deep_view() == locales_codes(locs.subrange(0, i as int)),
                decreases locales.len() - i,
            {
                let loc: &str = locales[i];
                proof {
                    assert(loc@ == locs[i as int]);
                }
                let n = loc.unicode_len();
                let ghost pre = codes.deep_view();
                let ghost mid = pre;
                if n >= 5 && loc.get_char(2) == '_' {
                    codes.push(loc.substring_char(0, 5).to_owned());
                    proof {
                        mid = pre.push(loc@.subrange(0, 5));
                        assert(codes.deep_view() =~= mid);
                    }
                }
                if n >= 2 && !str_eq(loc, "POSIX") {
                    let ghost before = codes.deep_view();
                    codes.push(loc.substring_char(0, 2).to_owned());
                    proof {
                        assert(codes.deep_view() =~= before.push(loc@.subrange(0, 2)));
                    }
                }
                proof {
                    assert(codes.deep_view() =~= pre + locale_codes(locs[i as int]));
                    lemma_locales_codes_push(locs.subrange(0, i as int), locs[i as int]);
                    assert(locs.subrange(0, i + 1) =~= locs.subrange(0, i as int).push(
                        locs[i as int],
                    ));
                }
                i = i + 1;
            }
            proof {
                assert(locs.subrange(0, locales@.len() as int) =~= locs);
            }
            let ghost all_codes = codes.deep_view();
            codes.push("en".to_owned());
            proof {
                assert(codes.deep_view() =~= all_codes.push("en"@));
            }
            clear_duplicates(&codes)
        },
    }
}

/// The language preference list always contains the default code, is
/// non-empty, and holds no duplicate entries.
pub proof fn lemma_language_list_basic(lang: Option<Seq<char>>, language: Option<Seq<char>>)
    ensures
        language_list(lang, language).len() > 0,
        language_list(lang, language).contains("en"@),
        no_duplicates(language_list(lang, language)),
{
    match lang {
        Option::None => {
            assert(language_list(lang, language)[0] == "en"@);
        },
        Option::Some(l) => {
            let base = locales_codes(candidate_locales(l, language)).push("en"@);
            lemma_dedup_first_contains(base, "en"@);
            assert(base[base.len() - 1] == "en"@);
            assert(base.contains("en"@));
            lemma_dedup_first_no_duplicates(base);
            let k = choose|k: int|
                0 <= k < dedup_first(base).len() && dedup_first(base)[k] == "en"@;
            assert(dedup_first(base).len() > 0);
        },
    }
}

/// When the environment values themselves contribute no `"en"` entry, the
/// default code stands last in the result.
pub proof fn lemma_language_list_ends_with_default(
    lang: Option<Seq<char>>,
    language: Option<Seq<char>>,
)
    requires
        lang is Some ==> !locales_codes(candidate_locales(lang->0, language)).contains("en"@),
    ensures
        language_list(lang, language).len() > 0,
        language_list(lang, language).last() == "en"@,
{
    match lang {
        Option::None => {
            assert(language_list(lang, language)[0] == "en"@);
        },
        Option::Some(l) => {
            let codes = locales_codes(candidate_locales(l, language));
            let base = codes.push("en"@);
            assert(base.drop_last() =~= codes);
            assert(base.last() == "en"@);
            lemma_dedup_first_last(base);
        },
    }
}

} // verus!
