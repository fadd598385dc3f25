use vstd::prelude::*;

verus! {

/// The name used when no user name is known.
pub open spec fn user_or_default(user: Option<Seq<char>>) -> Seq<char> {
    match user {
        Some(u) => u,
        None => "default"@,
    }
}

fn user_name(user: Option<&str>) -> (r: String)
    ensures
        r@ == user_or_default(
            match user {
                Some(u) => Some(u@),
                None => None,
            },
        ),
{
    match user {
        Some(u) => String::from_str(u),
        None => String::from_str("default"),
    }
}

/// The trash root used when none is asked for: `/tmp/trm-<user>`.
pub fn get_default_dir(user: Option<&str>) -> (r: String)
    ensures
        r@ == "/tmp/trm-"@ + user_or_default(
            match user {
                Some(u) => Some(u@),
                None => None,
            },
        ),
{
    let mut r = String::from_str("/tmp/trm-");
    let u = user_name(user);
    r.append(u.as_str());
    r
}

/// The operation log: `/tmp/trm-<user>.log`.
pub fn get_log_file(user: Option<&str>) -> (r: String)
    ensures
        r@ == "/tmp/trm-"@ + user_or_default(
            match user {
                Some(u) => Some(u@),
                None => None,
            },
        ) + ".log"@,
{
    let mut r = get_default_dir(user);
    r.append(".log");
    r
}

/// The trash root to use: the one asked for when it differs from the
/// default; else the data-home directory of the environment when it is set
/// and not empty; else the default.
pub fn choose_trash_dir(asked: &str, default_dir: &str, data_home: Option<&str>) -> (r: String)
    ensures
        asked@ != default_dir@ ==> r@ == asked@,
        asked@ == default_dir@ && data_home is Some && data_home->Some_0@.len() > 0 ==> r@
            == data_home->Some_0@,
        asked@ == default_dir@ && (data_home is None || data_home->Some_0@.len() == 0) ==> r@
            == asked@,
{
    let a = String::from_str(asked);
    let d = String::from_str(default_dir);
    if a != d {
        return a;
    }
    match data_home {
        Some(h) => {
            if h.unicode_len() > 0 {
                String::from_str(h)
            } else {
                a
            }
        },
        None => a,
    }
}

/// The characters with Unicode's White_Space property.
pub open spec fn is_white_space(c: char) -> bool {
    ('\u{9}' <= c && c <= '\u{d}') || c == ' ' || c == '\u{85}' || c == '\u{a0}' || c
        == '\u{1680}' || ('\u{2000}' <= c && c <= '\u{200a}') || c == '\u{2028}' || c
        == '\u{2029}' || c == '\u{202f}' || c == '\u{205f}' || c == '\u{3000}'
}

/// `s` without the white space it starts with.
pub open spec fn trim_start_spec(s: Seq<char>) -> Seq<char>
    decreases s.len(),
{
    if s.len() > 0 && is_white_space(s[0]) {
        trim_start_spec(s.drop_first())
    } else {
        s
    }
}

/// `s` without the white space it ends with.
pub open spec fn trim_end_spec(s: Seq<char>) -> Seq<char>
    decreases s.len(),
{
    if s.len() > 0 && is_white_space(s.last()) {
        trim_end_spec(s.drop_last())
    } else {
        s
    }
}

/// `s` without white space at either end.
pub open spec fn trim_spec(s: Seq<char>) -> Seq<char> {
    trim_end_spec(trim_start_spec(s))
}

/// Whether `c` has Unicode's White_Space property.
pub fn white_space(c: char) -> (b: bool)
    ensures
        b == is_white_space(c),
{
    ('\u{9}' <= c && c <= '\u{d}') || c == ' ' || c == '\u{85}' || c == '\u{a0}' || c
        == '\u{1680}' || ('\u{2000}' <= c && c <= '\u{200a}') || c == '\u{2028}' || c
        == '\u{2029}' || c == '\u{202f}' || c == '\u{205f}' || c == '\u{3000}'
}

proof fn lemma_trim_start_skip(s: Seq<char>, k: int)
    requires
        0 <= k <= s.len(),
        forall|j: int| 0 <= j < k ==> is_white_space(s[j]),
    ensures
        trim_start_spec(s) == trim_start_spec(s.subrange(k, s.len() as int)),
    decreases k,
{
    if k > 0 {
        assert(s.drop_first().subrange(k - 1, s.len() - 1) =~= s.subrange(k, s.len() as int));
        lemma_trim_start_skip(s.drop_first(), k - 1);
    } else {
        assert(s.subrange(0, s.len() as int) =~= s);
    }
}

proof fn lemma_trim_end_cut(s: Seq<char>, e: int)
    requires
        0 <= e <= s.len(),
        forall|j: int| e <= j < s.len() ==> is_white_space(s[j]),
    ensures
        trim_end_spec(s) == trim_end_spec(s.subrange(0, e)),
    decreases s.len() - e,
{
    if e < s.len() {
        assert(s.drop_last().subrange(0, e) =~= s.subrange(0, e));
        lemma_trim_end_cut(s.drop_last(), e);
    } else {
        assert(s.subrange(0, s.len() as int) =~= s);
    }
}

/// `s` without white space at either end, as `str::trim` gives it.
pub fn trim(s: &str) -> (r: String)
    ensures
        r@ == trim_spec(s@),
{
    let v = crate::path::chars_of(s);
    let mut a: usize = 0;
    while a < v.len() && white_space(v[a])
        invariant
            a <= v.len(),
            forall|j: int| 0 <= j < a ==> is_white_space(v@[j]),
        decreases v.len() - a,
    {
        a = a + 1;
    }
    let mut e: usize = v.len();
    while e > a && white_space(v[e - 1])
        invariant
            a <= e <= v.len(),
            forall|j: int| e <= j < v.len() ==> is_white_space(v@[j]),
        decreases e,
    {
        e = e - 1;
    }
    proof {
        lemma_trim_start_skip(v@, a as int);
        let t = v@.subrange(a as int, v@.len() as int);
        assert(a == v@.len() || !is_white_space(t[0]));
        assert(trim_start_spec(t) == t);
        lemma_trim_end_cut(t, e - a);
        assert(t.subrange(0, e - a) =~= v@.subrange(a as int, e as int));
        let u = v@.subrange(a as int, e as int);
        assert(u.len() == 0 || !is_white_space(u.last()));
        assert(trim_end_spec(u) == u);
    }
    String::from_str(s.substring_char(a, e))
}

/// Whether a trimmed answer to the purge prompt accepts it: `y` or `Y`.
pub fn is_yes(answer: &str) -> (b: bool)
    ensures
        b == (answer@ == "y"@ || answer@ == "Y"@),
{
    proof {
        reveal_strlit("y");
        reveal_strlit("Y");
    }
    let v = crate::path::chars_of(answer);
    proof {
        if v@.len() == 1 {
            assert(v@ =~= seq![v@[0]]);
        }
        assert("y"@ =~= seq!['y']);
        assert("Y"@ =~= seq!['Y']);
    }
    v.len() == 1 && (v[0] == 'y' || v[0] == 'Y')
}

/// Whether an answer typed at the purge prompt accepts it: `y` or `Y`, with
/// any white space around it.
pub fn confirms(answer: &str) -> (b: bool)
    ensures
        b == (trim_spec(answer@) == "y"@ || trim_spec(answer@) == "Y"@),
{
    let t = trim(answer);
    is_yes(t.as_str())
}

} // verus!
