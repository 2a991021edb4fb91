//! Join links: the share link the status bar copies, and the prefixes every ticket entry point
//! strips from what the user or the operating system hands it.
use vstd::prelude::*;

use crate::text::{chars_of, concat, string_from_chars};

verus! {

/// The static page that forwards a share link to the `brp://` handler.
pub const JOIN_PAGE: &'static str = "https://gtkacz.github.io/openstream/join/";

/// The join page without its trailing slash: a redirect may drop it.
pub const JOIN_PAGE_BASE: &'static str = "https://gtkacz.github.io/openstream/join";

/// What the page hands the operating system, and so what the binary receives from a click.
pub const SCHEME_JOIN_PREFIX: &'static str = "brp://join/";

/// The text of the share link for `ticket`.
pub open spec fn share_link_text(ticket: Seq<char>) -> Seq<char> {
    JOIN_PAGE@ + "#"@ + ticket
}

/// The text of the scheme link for `ticket`, as the operating system hands it over.
pub open spec fn scheme_link_text(ticket: Seq<char>) -> Seq<char> {
    SCHEME_JOIN_PREFIX@ + ticket
}

/// The share link for a ticket: the join page with the ticket in the fragment, which browsers
/// never send to the server.
pub fn share_link(ticket: &str) -> (link: String)
    ensures
        link@ == share_link_text(ticket@),
{
    let page = concat(JOIN_PAGE, "#");
    concat(page.as_str(), ticket)
}

/// Whether `s` begins with `p`.
pub open spec fn starts_with(s: Seq<char>, p: Seq<char>) -> bool {
    s.len() >= p.len() && s.take(p.len() as int) == p
}

/// `s` after its first `#`, or nothing when it holds none.
pub open spec fn after_first_hash(s: Seq<char>) -> Seq<char>
    decreases s.len(),
{
    if s.len() == 0 {
        s
    } else if s[0] == '#' {
        s.drop_first()
    } else {
        after_first_hash(s.drop_first())
    }
}

/// `s` without its trailing slashes.
pub open spec fn without_trailing_slashes(s: Seq<char>) -> Seq<char>
    decreases s.len(),
{
    if s.len() > 0 && s.last() == '/' {
        without_trailing_slashes(s.drop_last())
    } else {
        s
    }
}

/// The ticket text inside a share link, a scheme link, or a bare ticket.
pub open spec fn bare(input: Seq<char>) -> Seq<char> {
    if starts_with(input, JOIN_PAGE_BASE@) {
        after_first_hash(input.skip(JOIN_PAGE_BASE@.len() as int))
    } else if starts_with(input, SCHEME_JOIN_PREFIX@) {
        without_trailing_slashes(input.skip(SCHEME_JOIN_PREFIX@.len() as int))
    } else {
        input
    }
}

fn has_prefix(s: &Vec<char>, p: &Vec<char>) -> (b: bool)
    ensures
        b == starts_with(s@, p@),
{
    if s.len() < p.len() {
        return false;
    }
    let mut i: usize = 0;
    while i < p.len()
        invariant
            i <= p@.len(),
            p@.len() <= s@.len(),
            s@.take(i as int) == p@.take(i as int),
        decreases p@.len() - i,
    {
        if s[i] != p[i] {
            assert(s@.take(p@.len() as int)[i as int] != p@[i as int]);
            return false;
        }
        assert(s@.take(i + 1) =~= s@.take(i as int).push(s@[i as int]));
        assert(p@.take(i + 1) =~= p@.take(i as int).push(p@[i as int]));
        i = i + 1;
    }
    assert(p@.take(p@.len() as int) =~= p@);
    true
}

/// Strips a share-link or scheme-link prefix; anything else is returned as is. Both `…/join/#t`
/// and `…/join#t` are accepted. Whatever remains is for the ticket parser to judge, so an empty
/// or foreign remainder fails exactly as a bad pasted ticket does.
pub fn bare_ticket(input: &str) -> (t: String)
    ensures
        t@ == bare(input@),
{
    let v = chars_of(input);
    let page = chars_of(JOIN_PAGE_BASE);
    let scheme = chars_of(SCHEME_JOIN_PREFIX);
    if has_prefix(&v, &page) {
        let mut i = page.len();
        while i < v.len() && v[i] != '#'
            invariant
                page@.len() <= i <= v@.len(),
                after_first_hash(v@.skip(page@.len() as int)) == after_first_hash(v@.skip(i as int)),
            decreases v@.len() - i,
        {
            assert(v@.skip(i as int).drop_first() =~= v@.skip(i + 1));
            i = i + 1;
        }
        if i == v.len() {
            return String::new();
        }
        assert(v@.skip(i as int).drop_first() =~= v@.skip(i + 1));
        let rest = slice_string(&v, i + 1, v.len());
        return rest;
    }
    if has_prefix(&v, &scheme) {
        let start = scheme.len();
        let mut end = v.len();
        while end > start && v[end - 1] == '/'
            invariant
                start <= end <= v@.len(),
                without_trailing_slashes(v@.skip(start as int)) == without_trailing_slashes(v@.subrange(start as int, end as int)),
            decreases end,
        {
            assert(v@.subrange(start as int, end as int).drop_last() =~= v@.subrange(start as int, end - 1));
            end = end - 1;
        }
        assert(v@.skip(start as int) =~= v@.subrange(start as int, v@.len() as int));
        return slice_string(&v, start, end);
    }
    input.to_owned()
}

/// The characters of `v` from `from` to `to`, as a string.
fn slice_string(v: &Vec<char>, from: usize, to: usize) -> (s: String)
    requires
        from <= to <= v@.len(),
    ensures
        s@ == v@.subrange(from as int, to as int),
{
    let mut out: Vec<char> = Vec::new();
    let mut i = from;
    while i < to
        invariant
            from <= i <= to <= v@.len(),
            out@ == v@.subrange(from as int, i as int),
        decreases to - i,
    {
        out.push(v[i]);
        assert(v@.subrange(from as int, i + 1) =~= v@.subrange(from as int, i as int).push(v@[i as int]));
        i = i + 1;
    }
    string_from_chars(out.as_slice())
}

/// Every link form of a ticket gives the ticket back: the share link, the share link whose
/// slash a redirect dropped, and the scheme link with or without a trailing slash. A share link
/// gives back whatever ticket text it carries; the other forms need a ticket that does not itself
/// end in a slash, and a bare ticket passes through when it looks like none of the links.
pub proof fn lemma_every_link_form_gives_the_ticket(t: Seq<char>)
    ensures
        bare(share_link_text(t)) == t,
        bare(JOIN_PAGE_BASE@ + "#"@ + t) == t,
        t.len() == 0 || t.last() != '/' ==> bare(scheme_link_text(t)) == t,
        t.len() == 0 || t.last() != '/' ==> bare(scheme_link_text(t) + "/"@) == t,
        !starts_with(t, JOIN_PAGE_BASE@) && !starts_with(t, SCHEME_JOIN_PREFIX@) ==> bare(t) == t,
{
    reveal_strlit("https://gtkacz.github.io/openstream/join/");
    reveal_strlit("https://gtkacz.github.io/openstream/join");
    reveal_strlit("brp://join/");
    reveal_strlit("#");
    reveal_strlit("/");
    let base = JOIN_PAGE_BASE@;
    let scheme = SCHEME_JOIN_PREFIX@;
    assert(JOIN_PAGE@ =~= base + "/"@);
    // The share link, with and without the page's slash.
    let shared = JOIN_PAGE@ + "#"@ + t;
    assert(shared.take(base.len() as int) =~= base);
    let rest = shared.skip(base.len() as int);
    assert(rest =~= seq!['/', '#'] + t);
    assert(rest[0] == '/');
    assert(rest.drop_first() =~= seq!['#'] + t);
    assert((seq!['#'] + t).drop_first() =~= t);
    assert((seq!['#'] + t)[0] == '#');
    assert(after_first_hash(seq!['#'] + t) == t);
    assert(after_first_hash(rest) == after_first_hash(rest.drop_first()));
    let short = base + "#"@ + t;
    assert(short.take(base.len() as int) =~= base);
    assert(short.skip(base.len() as int) =~= seq!['#'] + t);
    // The scheme link, with and without a trailing slash.
    let linked = scheme + t;
    assert(linked.take(scheme.len() as int) =~= scheme);
    assert(linked[0] != base[0]);
    assert(!starts_with(linked, base)) by {
        if starts_with(linked, base) {
            assert(linked.take(base.len() as int)[0] == base[0]);
        }
    }
    assert(linked.skip(scheme.len() as int) =~= t);
    let slashed = scheme + t + "/"@;
    assert(slashed.take(scheme.len() as int) =~= scheme);
    assert(slashed[0] != base[0]);
    assert(!starts_with(slashed, base)) by {
        if starts_with(slashed, base) {
            assert(slashed.take(base.len() as int)[0] == base[0]);
        }
    }
    let tail = slashed.skip(scheme.len() as int);
    assert(tail =~= t.push('/'));
    assert(tail.drop_last() =~= t);
    assert(tail.last() == '/');
    assert(without_trailing_slashes(tail) == without_trailing_slashes(t));
}

} // verus!
