//! The report as text.

use crate::activity::{RepoActivity, RepoModel};
use crate::digest::{AggregateReport, ReportModel};
use crate::event::ReviewReaction;
use crate::strmap::{lemma_sorted, sorted};
use crate::text::{decimal, push_decimal};
use vstd::prelude::*;
use vstd::string::*;

verus! {

/// Whether `char::is_whitespace` holds of `c`: whether the character has
/// the Unicode property White_Space.
pub uninterp spec fn white_space(c: char) -> bool;

/// `s` without the characters at its start that are `blank`.
pub open spec fn without_leading(s: Seq<char>, blank: spec_fn(char) -> bool) -> Seq<char>
    decreases s.len(),
{
    if s.len() > 0 && blank(s.first()) {
        without_leading(s.drop_first(), blank)
    } else {
        s
    }
}

/// `s` without the characters at its end that are `blank`.
pub open spec fn without_trailing(s: Seq<char>, blank: spec_fn(char) -> bool) -> Seq<char>
    decreases s.len(),
{
    if s.len() > 0 && blank(s.last()) {
        without_trailing(s.drop_last(), blank)
    } else {
        s
    }
}

/// `s` without the white space at its start and at its end.
pub open spec fn trimmed(s: Seq<char>) -> Seq<char> {
    without_trailing(without_leading(s, |c: char| white_space(c)), |c: char| white_space(c))
}

/// std's `str::trim`: the slice without its leading and trailing white
/// space, where white space is what `char::is_whitespace` says.
#[verifier::external_body]
fn trim(s: &str) -> (r: &str)
    ensures
        r@ == without_trailing(without_leading(s@, |c: char| white_space(c)), |c: char| white_space(c)),
{
    s.trim()
}

/// A link in Markdown: the title in square brackets, the address in round
/// ones, both trimmed.
pub open spec fn link_text(address: Seq<char>, title: Seq<char>) -> Seq<char> {
    "["@ + trimmed(title) + "]("@ + trimmed(address) + ")"@
}

/// A link in Markdown to `address`, under `title`.
pub fn link(address: &str, title: &str) -> (r: String)
    ensures
        r@ == link_text(address@, title@),
{
    let mut r = String::from_str("[");
    r.append(trim(title));
    r.append("](");
    r.append(trim(address));
    r.append(")");
    r
}

/// The first line of a report: how many events were left out.
pub open spec fn header(before: nat, after: nat) -> Seq<char> {
    "<!-- before: "@ + decimal(before) + " after: "@ + decimal(after) + " -->\n"@
}

/// The line that starts a repository: its name as a link to its page.
pub open spec fn heading(repo: Seq<char>) -> Seq<char> {
    "### "@ + link_text("https://github.com/"@ + repo, repo) + "\n"@
}

/// The title that a repository knows for `url`: none is the empty title.
pub open spec fn title_of(titles: Map<Seq<char>, Seq<char>>, url: Seq<char>) -> Seq<char> {
    if titles.contains_key(url) {
        titles[url]
    } else {
        Seq::empty()
    }
}

/// The line of one item: a marker and a link.
pub open spec fn item(marker: Seq<char>, url: Seq<char>, title: Seq<char>) -> Seq<char> {
    "  - "@ + marker + " "@ + link_text(url, title) + "\n"@
}

/// The marker of a review.
pub open spec fn review_marker(reaction: ReviewReaction) -> Seq<char> {
    match reaction {
        ReviewReaction::Approved => "\u{2714}"@,
        ReviewReaction::Other => "\u{1F4CB}"@,
    }
}

/// The line of an opened pull request.
pub open spec fn opened_item(m: RepoModel) -> spec_fn(Seq<char>) -> Seq<char> {
    |url: Seq<char>| item("\u{1F195}"@, url, title_of(m.titles, url))
}

/// The line of a reviewed pull request.
pub open spec fn reviewed_item(m: RepoModel) -> spec_fn(Seq<char>) -> Seq<char> {
    |url: Seq<char>| item(review_marker(m.reviewed[url]), url, title_of(m.titles, url))
}

/// The line of an issue commented on.
pub open spec fn commented_item(m: RepoModel) -> spec_fn(Seq<char>) -> Seq<char> {
    |url: Seq<char>| item("\u{1F4DD}"@, url, title_of(m.titles, url))
}

/// The lines of the items at `urls`, in their order.
pub open spec fn items(urls: Seq<Seq<char>>, line: spec_fn(Seq<char>) -> Seq<char>) -> Seq<char>
    decreases urls.len(),
{
    if urls.len() == 0 {
        Seq::empty()
    } else {
        items(urls.drop_last(), line) + line(urls.last())
    }
}

/// A section: nothing at all where there is no item, and else a line that
/// names it, the items, and an empty line.
pub open spec fn section(name: Seq<char>, urls: Seq<Seq<char>>, line: spec_fn(Seq<char>) -> Seq<char>) -> Seq<
    char,
> {
    if urls.len() == 0 {
        Seq::empty()
    } else {
        name + items(urls, line) + "\n"@
    }
}

/// The section of the pushes: nothing at all where there was none.
pub open spec fn pushes_section(count: nat) -> Seq<char> {
    if count == 0 {
        Seq::empty()
    } else {
        "Pushed "@ + decimal(count) + " times\n\n"@
    }
}

/// The text of one repository: its heading, then the pull requests, the
/// reviews, the comments and the pushes, each in the order of the URLs.
pub open spec fn repo_text(repo: Seq<char>, m: RepoModel) -> Seq<char> {
    heading(repo) + section("Pull Requests: \n"@, sorted(m.pr_opened), opened_item(m)) + section(
        "Reviewed: \n"@,
        sorted(m.reviewed.dom()),
        reviewed_item(m),
    ) + section("Commented: \n"@, sorted(m.commented_issues), commented_item(m)) + pushes_section(
        m.push_count,
    )
}

/// The texts of the repositories `names`, in their order.
pub open spec fn repos_text(repos: Map<Seq<char>, RepoModel>, names: Seq<Seq<char>>) -> Seq<char>
    decreases names.len(),
{
    if names.len() == 0 {
        Seq::empty()
    } else {
        repos_text(repos, names.drop_last()) + repo_text(names.last(), repos[names.last()])
    }
}

/// The text of a report: the header, then the repositories in the order of
/// their names.
pub open spec fn report_text(report: ReportModel) -> Seq<char> {
    header(report.excluded_before, report.excluded_after) + repos_text(
        report.repos,
        sorted(report.repos.dom()),
    )
}

/// A repository without any activity is its heading, and no section.
pub proof fn lemma_idle_repo(repo: Seq<char>, m: RepoModel)
    requires
        m.pr_opened == Set::<Seq<char>>::empty(),
        m.reviewed.dom() == Set::<Seq<char>>::empty(),
        m.commented_issues == Set::<Seq<char>>::empty(),
        m.push_count == 0,
    ensures
        repo_text(repo, m) == heading(repo),
{
    let none = Seq::<Seq<char>>::empty();
    assert(none.to_set() =~= Set::<Seq<char>>::empty());
    lemma_sorted(none);
    assert(repo_text(repo, m) =~= heading(repo));
}

/// The title that `activity` knows for `url`, or the empty one.
fn title_for<'a>(activity: &'a RepoActivity, url: &str) -> (title: &'a str)
    ensures
        title@ == title_of(activity@.titles, url@),
{
    match activity.titles.get(url) {
        Some(title) => title.as_str(),
        None => {
            proof {
                reveal_strlit("");
            }
            assert(""@ =~= Seq::<char>::empty());
            ""
        },
    }
}

/// Writes the line of one item at the end of `out`.
fn push_item(out: &mut String, marker: &str, url: &str, title: &str)
    ensures
        final(out)@ == old(out)@ + item(marker@, url@, title@),
{
    out.append("  - ");
    out.append(marker);
    out.append(" ");
    out.append(link(url, title).as_str());
    out.append("\n");
    assert(out@ =~= old(out)@ + item(marker@, url@, title@));
}

/// Writes the section of the opened pull requests at the end of `out`.
fn push_opened(out: &mut String, activity: &RepoActivity)
    ensures
        final(out)@ == old(out)@ + section(
            "Pull Requests: \n"@,
            sorted(activity@.pr_opened),
            opened_item(activity@),
        ),
{
    let urls = &activity.pr_opened;
    proof {
        use_type_invariant(urls);
        urls.lemma_wf();
    }
    let n = urls.len();
    if n == 0 {
        assert(out@ =~= old(out)@ + Seq::<char>::empty());
        return ;
    }
    out.append("Pull Requests: \n");
    let ghost start = out@;
    let mut i: usize = 0;
    while i < n
        invariant
            i <= n,
            n == urls.keys().len(),
            out@ == start + items(urls.keys().take(i as int), opened_item(activity@)),
        decreases n - i,
    {
        let url = urls.key_at(i);
        push_item(out, "\u{1F195}", url, title_for(activity, url));
        proof {
            let done = urls.keys().take(i as int);
            urls.keys().lemma_take_succ_push(i as int);
            assert(done.push(url@).drop_last() =~= done);
            assert(out@ =~= start + items(urls.keys().take(i + 1), opened_item(activity@)));
        }
        i += 1;
    }
    out.append("\n");
    proof {
        urls.keys().lemma_take_len();
        assert(out@ =~= old(out)@ + section(
            "Pull Requests: \n"@,
            sorted(activity@.pr_opened),
            opened_item(activity@),
        ));
    }
}

/// The marker of a review.
fn marker_for(reaction: &ReviewReaction) -> (marker: &'static str)
    ensures
        marker@ == review_marker(*reaction),
{
    match reaction {
        ReviewReaction::Approved => "\u{2714}",
        ReviewReaction::Other => "\u{1F4CB}",
    }
}

/// Writes the section of the reviewed pull requests at the end of `out`.
fn push_reviewed(out: &mut String, activity: &RepoActivity)
    ensures
        final(out)@ == old(out)@ + section(
            "Reviewed: \n"@,
            sorted(activity@.reviewed.dom()),
            reviewed_item(activity@),
        ),
{
    let urls = &activity.reviewed;
    proof {
        use_type_invariant(urls);
        urls.lemma_wf();
    }
    let n = urls.len();
    if n == 0 {
        assert(out@ =~= old(out)@ + Seq::<char>::empty());
        return ;
    }
    out.append("Reviewed: \n");
    let ghost start = out@;
    let mut i: usize = 0;
    while i < n
        invariant
            i <= n,
            n == urls.keys().len(),
            urls == &activity.reviewed,
            out@ == start + items(urls.keys().take(i as int), reviewed_item(activity@)),
        decreases n - i,
    {
        let url = urls.key_at(i);
        push_item(out, marker_for(urls.value_at(i)), url, title_for(activity, url));
        proof {
            let done = urls.keys().take(i as int);
            urls.keys().lemma_take_succ_push(i as int);
            assert(done.push(url@).drop_last() =~= done);
            assert(out@ =~= start + items(urls.keys().take(i + 1), reviewed_item(activity@)));
        }
        i += 1;
    }
    out.append("\n");
    proof {
        urls.keys().lemma_take_len();
        assert(out@ =~= old(out)@ + section(
            "Reviewed: \n"@,
            sorted(activity@.reviewed.dom()),
            reviewed_item(activity@),
        ));
    }
}

/// Writes the section of the issues commented on at the end of `out`.
fn push_commented(out: &mut String, activity: &RepoActivity)
    ensures
        final(out)@ == old(out)@ + section(
            "Commented: \n"@,
            sorted(activity@.commented_issues),
            commented_item(activity@),
        ),
{
    let urls = &activity.commented_issues;
    proof {
        use_type_invariant(urls);
        urls.lemma_wf();
    }
    let n = urls.len();
    if n == 0 {
        assert(out@ =~= old(out)@ + Seq::<char>::empty());
        return ;
    }
    out.append("Commented: \n");
    let ghost start = out@;
    let mut i: usize = 0;
    while i < n
        invariant
            i <= n,
            n == urls.keys().len(),
            out@ == start + items(urls.keys().take(i as int), commented_item(activity@)),
        decreases n - i,
    {
        let url = urls.key_at(i);
        push_item(out, "\u{1F4DD}", url, title_for(activity, url));
        proof {
            let done = urls.keys().take(i as int);
            urls.keys().lemma_take_succ_push(i as int);
            assert(done.push(url@).drop_last() =~= done);
            assert(out@ =~= start + items(urls.keys().take(i + 1), commented_item(activity@)));
        }
        i += 1;
    }
    out.append("\n");
    proof {
        urls.keys().lemma_take_len();
        assert(out@ =~= old(out)@ + section(
            "Commented: \n"@,
            sorted(activity@.commented_issues),
            commented_item(activity@),
        ));
    }
}

/// Writes the text of one repository at the end of `out`.
pub fn push_repo(out: &mut String, repo: &str, activity: &RepoActivity)
    ensures
        final(out)@ == old(out)@ + repo_text(repo@, activity@),
{
    let mut address = String::from_str("https://github.com/");
    address.append(repo);
    out.append("### ");
    out.append(link(address.as_str(), repo).as_str());
    out.append("\n");
    assert(out@ =~= old(out)@ + heading(repo@));
    push_opened(out, activity);
    push_reviewed(out, activity);
    push_commented(out, activity);
    if activity.push_count > 0 {
        out.append("Pushed ");
        push_decimal(out, activity.push_count);
        out.append(" times\n\n");
    }
    assert(out@ =~= old(out)@ + repo_text(repo@, activity@));
}

/// The report as text.
pub fn render_events(report: &AggregateReport) -> (out: String)
    ensures
        out@ == report_text(report@),
{
    let mut out = String::from_str("<!-- before: ");
    push_decimal(&mut out, report.excluded_before);
    out.append(" after: ");
    push_decimal(&mut out, report.excluded_after);
    out.append(" -->\n");
    assert(out@ =~= header(report@.excluded_before, report@.excluded_after));
    let repos = &report.repos;
    proof {
        use_type_invariant(repos);
        repos.lemma_wf();
        assert(report@.repos.dom() =~= repos@.dom());
    }
    let ghost start = out@;
    let n = repos.len();
    let mut i: usize = 0;
    while i < n
        invariant
            i <= n,
            n == repos.keys().len(),
            repos == &report.repos,
            out@ == start + repos_text(report@.repos, repos.keys().take(i as int)),
        decreases n - i,
    {
        let name = repos.key_at(i);
        let activity = repos.value_at(i);
        push_repo(&mut out, name, activity);
        proof {
            let done = repos.keys().take(i as int);
            repos.keys().lemma_take_succ_push(i as int);
            assert(done.push(name@).drop_last() =~= done);
            use_type_invariant(repos);
            repos.lemma_wf();
            assert(repos.keys().contains(repos.keys()[i as int]));
            assert(report@.repos[name@] == activity@);
            assert(out@ =~= start + repos_text(report@.repos, repos.keys().take(i + 1)));
        }
        i += 1;
    }
    proof {
        repos.keys().lemma_take_len();
    }
    out
}

} // verus!
