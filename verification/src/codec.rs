//! Line codec and wire formats: trimming of raw input lines, display-name
//! validation, and the exact shape of every line the relay sends.
use vstd::prelude::*;
use vstd::string::StrSliceExecFns;
use vstd::string::StringExecFns;

verus! {

/// A display name is accepted exactly when it is non-empty and every
/// character is an ASCII letter or digit.
pub open spec fn is_name_char(c: char) -> bool {
    ('a' <= c && c <= 'z') || ('A' <= c && c <= 'Z') || ('0' <= c && c <= '9')
}

pub open spec fn valid_name(s: Seq<char>) -> bool {
    s.len() > 0 && (forall|i: int| 0 <= i < s.len() ==> is_name_char(#[trigger] s[i]))
}

/// Relies on regex::Regex::is_match with the anchored pattern ^[a-zA-Z0-9]+$:
/// it holds exactly of non-empty strings of ASCII letters and digits.
#[verifier::external_body]
fn name_matches_pattern(s: &str) -> (r: bool)
    ensures
        r == valid_name(s@),
{
    let pattern = regex::Regex::new(r"^[a-zA-Z0-9]+$").unwrap();
    pattern.is_match(s)
}

/// Decides whether a submitted line may serve as a display name.
pub fn validate_name(s: &str) -> (r: bool)
    ensures
        r == valid_name(s@),
{
    name_matches_pattern(s)
}

/// The Unicode White_Space set: exactly the characters `str::trim` removes.
pub open spec fn is_space(c: char) -> bool {
    let u = c as u32;
    (0x09 <= u && u <= 0x0D) || u == 0x20 || u == 0x85 || u == 0xA0 || u == 0x1680 || (0x2000 <= u
        && u <= 0x200A) || u == 0x2028 || u == 0x2029 || u == 0x202F || u == 0x205F || u == 0x3000
}

pub open spec fn trim_front(s: Seq<char>) -> Seq<char>
    decreases s.len(),
{
    if s.len() > 0 && is_space(s[0]) {
        trim_front(s.drop_first())
    } else {
        s
    }
}

pub open spec fn trim_back(s: Seq<char>) -> Seq<char>
    decreases s.len(),
{
    if s.len() > 0 && is_space(s.last()) {
        trim_back(s.drop_last())
    } else {
        s
    }
}

/// A received line with leading and trailing whitespace removed.
pub open spec fn trimmed(s: Seq<char>) -> Seq<char> {
    trim_back(trim_front(s))
}

proof fn lemma_trim_front_skip(s: Seq<char>, k: int)
    requires
        0 <= k <= s.len(),
        forall|i: int| 0 <= i < k ==> is_space(#[trigger] s[i]),
        k == s.len() || !is_space(s[k]),
    ensures
        trim_front(s) == s.skip(k),
    decreases k,
{
    if k == 0 {
        assert(s.skip(0) =~= s);
    } else {
        assert(is_space(s[0]));
        lemma_trim_front_skip(s.drop_first(), k - 1);
        assert(s.drop_first().skip(k - 1) =~= s.skip(k));
    }
}

proof fn lemma_trim_back_take(s: Seq<char>, k: int)
    requires
        0 <= k <= s.len(),
        forall|i: int| k <= i < s.len() ==> is_space(#[trigger] s[i]),
        k == 0 || !is_space(s[k - 1]),
    ensures
        trim_back(s) == s.take(k),
    decreases s.len(),
{
    if k == s.len() {
        assert(s.take(k) =~= s);
    } else {
        assert(is_space(s.last()));
        lemma_trim_back_take(s.drop_last(), k);
        assert(s.drop_last().take(k) =~= s.take(k));
    }
}

fn is_space_char(c: char) -> (r: bool)
    ensures
        r == is_space(c),
{
    let u = c as u32;
    (0x09 <= u && u <= 0x0D) || u == 0x20 || u == 0x85 || u == 0xA0 || u == 0x1680 || (0x2000 <= u
        && u <= 0x200A) || u == 0x2028 || u == 0x2029 || u == 0x202F || u == 0x205F || u == 0x3000
}

/// Removes leading and trailing whitespace from a raw input line.
pub fn trim_line(s: &str) -> (r: String)
    ensures
        r@ == trimmed(s@),
{
    let n = s.unicode_len();
    let mut start: usize = 0;
    while start < n && is_space_char(s.get_char(start))
        invariant
            n == s@.len(),
            0 <= start <= n,
            forall|i: int| 0 <= i < start ==> is_space(#[trigger] s@[i]),
        decreases n - start,
    {
        start = start + 1;
    }
    let mut end: usize = n;
    while end > start && is_space_char(s.get_char(end - 1))
        invariant
            n == s@.len(),
            0 <= start <= end <= n,
            forall|i: int| 0 <= i < start ==> is_space(#[trigger] s@[i]),
            start == n || !is_space(s@[start as int]),
            forall|i: int| end <= i < n ==> is_space(#[trigger] s@[i]),
        decreases end,
    {
        end = end - 1;
    }
    let sub = s.substring_char(start, end);
    proof {
        lemma_trim_front_skip(s@, start as int);
        let t = s@.skip(start as int);
        lemma_trim_back_take(t, end - start);
        assert(t.take(end - start) =~= s@.subrange(start as int, end as int));
    }
    String::from_str(sub)
}

/// The handshake prompt sent to every new connection.
pub open spec fn prompt_line() -> Seq<char> {
    "Welcome to budgetchat! What shall I call you?"@
}

pub fn format_prompt() -> (r: String)
    ensures
        r@ == prompt_line(),
{
    String::from_str("Welcome to budgetchat! What shall I call you?")
}

/// A system line: the body behind a `* ` marker.
pub open spec fn system_line(body: Seq<char>) -> Seq<char> {
    "* "@ + body
}

/// An attributed chat line: the body behind the sender's bracketed name.
pub open spec fn chat_line(name: Seq<char>, body: Seq<char>) -> Seq<char> {
    "["@ + name + "] "@ + body
}

pub open spec fn join_announcement(name: Seq<char>) -> Seq<char> {
    system_line(name + " has entered the room"@)
}

pub open spec fn part_announcement(name: Seq<char>) -> Seq<char> {
    system_line(name + " has left the room"@)
}

/// The roster body: the display names joined by `, `.
pub open spec fn joined_names(names: Seq<Seq<char>>) -> Seq<char>
    decreases names.len(),
{
    if names.len() == 0 {
        Seq::empty()
    } else if names.len() == 1 {
        names[0]
    } else {
        joined_names(names.drop_last()) + ", "@ + names.last()
    }
}

/// The roster line shown to a user who has just joined.
pub open spec fn roster_line(names: Seq<Seq<char>>) -> Seq<char> {
    "* The room contains: "@ + joined_names(names)
}

pub fn format_chat_line(name: &str, body: &str) -> (r: String)
    ensures
        r@ == chat_line(name@, body@),
{
    let mut out = String::from_str("[");
    out.append(name);
    out.append("] ");
    out.append(body);
    proof {
        assert(out@ =~= chat_line(name@, body@));
    }
    out
}

pub fn format_join_announcement(name: &str) -> (r: String)
    ensures
        r@ == join_announcement(name@),
{
    let mut out = String::from_str("* ");
    out.append(name);
    out.append(" has entered the room");
    proof {
        assert(out@ =~= join_announcement(name@));
    }
    out
}

pub fn format_part_announcement(name: &str) -> (r: String)
    ensures
        r@ == part_announcement(name@),
{
    let mut out = String::from_str("* ");
    out.append(name);
    out.append(" has left the room");
    proof {
        assert(out@ =~= part_announcement(name@));
    }
    out
}

pub fn format_roster_line(names: &Vec<String>) -> (r: String)
    ensures
        r@ == roster_line(names.deep_view()),
{
    let mut out = String::from_str("* The room contains: ");
    let mut i: usize = 0;
    while i < names.len()
        invariant
            0 <= i <= names.len(),
            out@ == "* The room contains: "@ + joined_names(names.deep_view().take(i as int)),
        decreases names.len() - i,
    {
        if i > 0 {
            out.append(", ");
        }
        out.append(names[i].as_str());
        proof {
            let dv = names.deep_view();
            assert(dv.take(i + 1).drop_last() =~= dv.take(i as int));
            assert(dv.take(i + 1).last() == dv[i as int]);
            if i == 0 {
                assert(joined_names(dv.take(1)) == dv[0]);
                assert(out@ =~= "* The room contains: "@ + joined_names(dv.take(1)));
            } else {
                assert(joined_names(dv.take(i + 1)) == joined_names(dv.take(i as int)) + ", "@
                    + dv[i as int]);
                assert(out@ =~= "* The room contains: "@ + joined_names(dv.take(i + 1)));
            }
        }
        i = i + 1;
    }
    proof {
        assert(names.deep_view().take(names.len() as int) =~= names.deep_view());
    }
    out
}

} // verus!
