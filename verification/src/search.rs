//! Case-insensitive search for a text in the lines of a file.

use crate::lines::{
    complete_lines, has_newline, lemma_complete_lines_stay, lemma_first_newline, split_lines,
};
use crate::paging::PagePolicy;
use crate::scanner::{
    lemma_consumed_lines_prefix, lemma_consumed_within_complete, next_line, texts, valid_lines,
    LineScanner, ScanError,
};
use vstd::prelude::*;
use vstd::utf8::*;

verus! {

/// One line that holds the text searched for.
#[derive(Clone, Debug)]
pub struct SearchResult {
    /// Number of the line in the file, counted from 1.
    pub line_number: u64,
    /// Page of the file on which the line lies.
    pub page: u64,
    /// The line as it stands in the file.
    pub line: String,
}

/// What a `SearchResult` holds.
pub struct Hit {
    pub line_number: nat,
    pub page: nat,
    pub line: Seq<char>,
}

impl View for SearchResult {
    type V = Hit;

    open spec fn view(&self) -> Hit {
        Hit { line_number: self.line_number as nat, page: self.page as nat, line: self.line@ }
    }
}

/// What a vector of search results holds.
pub open spec fn hits(v: Seq<SearchResult>) -> Seq<Hit> {
    Seq::new(v.len(), |i: int| v[i]@)
}

/// The lower-case form that `str::to_lowercase` of std gives a text.
pub uninterp spec fn lowercased(text: Seq<char>) -> Seq<char>;

/// `str::to_lowercase` of std: the lower-case form of `text`, which depends
/// on `text` alone.
#[verifier::external_body]
pub(crate) fn lowercase(text: &str) -> (r: String)
    ensures
        r@ == lowercased(text@),
{
    text.to_lowercase()
}

/// Whether `needle` stands somewhere in `text` as a contiguous run.
pub open spec fn occurs_in(needle: Seq<char>, text: Seq<char>) -> bool {
    exists|i: int|
        0 <= i && i + needle.len() <= text.len() && #[trigger] text.subrange(
            i,
            i + needle.len(),
        ) == needle
}

/// `str::contains` of std with a string as the pattern: whether `needle` is
/// a substring of `text`.
#[verifier::external_body]
pub(crate) fn contains(text: &str, needle: &str) -> (r: bool)
    ensures
        r == occurs_in(needle@, text@),
{
    text.contains(needle)
}

/// Whether a line holds the text searched for, letter case aside: the
/// lower-case form of the query occurs in the lower-case form of the line.
pub open spec fn line_matches(line: Seq<char>, query: Seq<char>) -> bool {
    occurs_in(lowercased(query), lowercased(line))
}

/// The hit for line `number` (counted from 1) of a file of `file_size` bytes.
pub open spec fn hit_at(policy: PagePolicy, file_size: nat, number: nat, line: Seq<char>) -> Hit {
    Hit { line_number: number, page: policy.line_page(file_size, number), line }
}

/// The hits of a search: one for each line that holds the query, in the
/// order of the lines.
pub open spec fn hits_of(
    policy: PagePolicy,
    file_size: nat,
    lines: Seq<Seq<char>>,
    query: Seq<char>,
) -> Seq<Hit>
    decreases lines.len(),
{
    if lines.len() == 0 {
        Seq::empty()
    } else {
        let before = hits_of(policy, file_size, lines.drop_last(), query);
        if line_matches(lines.last(), query) {
            before.push(hit_at(policy, file_size, lines.len(), lines.last()))
        } else {
            before
        }
    }
}

/// Tests one line against a query that is already in lower case, and makes
/// the hit for it.
pub fn match_line(
    policy: &PagePolicy,
    file_size: u64,
    line_number: u64,
    line: String,
    query_lower: &str,
) -> (r: Option<SearchResult>)
    requires
        line_number >= 1,
    ensures
        occurs_in(query_lower@, lowercased(line@)) ==> (r matches Some(hit) && hit@ == hit_at(
            *policy,
            file_size as nat,
            line_number as nat,
            line@,
        )),
        !occurs_in(query_lower@, lowercased(line@)) ==> r is None,
{
    let lower = lowercase(line.as_str());
    if contains(lower.as_str(), query_lower) {
        let page: u64 = policy.page_of_line(file_size, line_number);
        Some(SearchResult { line_number, page, line })
    } else {
        None
    }
}

/// What a search of a text gives: the hits in its lines, or nothing when
/// one of its lines is not valid UTF-8.
pub open spec fn search_outcome(
    policy: PagePolicy,
    file_size: nat,
    lines: Seq<Seq<u8>>,
    query: Seq<char>,
) -> Option<Seq<Hit>> {
    if valid_lines(lines, lines.len() as int) {
        Some(hits_of(policy, file_size, texts(lines), query))
    } else {
        None
    }
}

/// Searches a file that is fed in chunks, and hands out the hits of each
/// chunk as soon as its lines are complete.
pub struct LineSearch {
    scanner: LineScanner,
    policy: PagePolicy,
    file_size: u64,
    query: Ghost<Seq<char>>,
    query_lower: String,
    line_number: u64,
    bytes: u64,
    failed: bool,
    reported: Ghost<Seq<Hit>>,
}

impl LineSearch {
    /// All bytes fed so far.
    pub closed spec fn fed(&self) -> Seq<u8> {
        self.scanner.fed()
    }

    /// The hits handed out so far.
    pub closed spec fn reported(&self) -> Seq<Hit> {
        self.reported@
    }

    /// The text searched for.
    pub closed spec fn query(&self) -> Seq<char> {
        self.query@
    }

    /// The paging policy by which hits are given their page.
    pub closed spec fn policy(&self) -> PagePolicy {
        self.policy
    }

    /// The size of the file, which decides whether it is paged.
    pub closed spec fn file_size(&self) -> nat {
        self.file_size as nat
    }

    spec fn tracked_hits(&self) -> bool {
        let read = split_lines(self.scanner.consumed());
        &&& self.scanner.wf()
        &&& self.bytes == self.scanner.fed().len()
        &&& self.query_lower@ == lowercased(self.query@)
        &&& if self.failed {
            read.len() >= 1 && !valid_utf8(read.last())
        } else {
            &&& self.line_number == read.len()
            &&& self.line_number <= self.scanner.consumed().len()
            &&& valid_lines(read, read.len() as int)
            &&& self.reported@ == hits_of(
                self.policy,
                self.file_size as nat,
                texts(read),
                self.query@,
            )
        }
    }

    /// The search has looked at every complete line that it was fed.
    pub closed spec fn wf(&self) -> bool {
        &&& self.tracked_hits()
        &&& !self.scanner.ended()
        &&& self.failed || !has_newline(self.scanner.pending())
    }

    /// A search for `query`, letter case aside, in a file of `file_size`
    /// bytes whose hits get their page by `policy`.
    pub fn new(query: &str, policy: PagePolicy, file_size: u64) -> (r: LineSearch)
        ensures
            r.wf(),
            r.fed() == Seq::<u8>::empty(),
            r.reported() == Seq::<Hit>::empty(),
            r.query() == query@,
            r.policy() == policy,
            r.file_size() == file_size,
    {
        let r = LineSearch {
            scanner: LineScanner::new(),
            policy,
            file_size,
            query: Ghost(query@),
            query_lower: lowercase(query),
            line_number: 0,
            bytes: 0,
            failed: false,
            reported: Ghost(Seq::empty()),
        };
        r
    }

    /// Number of bytes fed so far.
    pub fn bytes_fed(&self) -> (r: u64)
        requires
            self.wf(),
        ensures
            r == self.fed().len(),
    {
        self.bytes
    }

    fn drain(&mut self) -> (found: Vec<SearchResult>)
        requires
            old(self).tracked_hits(),
        ensures
            final(self).tracked_hits(),
            final(self).scanner.fed() == old(self).scanner.fed(),
            final(self).scanner.ended() == old(self).scanner.ended(),
            final(self).query@ == old(self).query@,
            final(self).policy == old(self).policy,
            final(self).file_size == old(self).file_size,
            !final(self).failed ==> final(self).reported@ == old(self).reported@ + hits(found@),
            old(self).failed ==> final(self).failed,
            final(self).failed || next_line(
                final(self).scanner.pending(),
                final(self).scanner.ended(),
            ) is None,
    {
        let ghost fed = self.scanner.fed();
        let ghost ended = self.scanner.ended();
        let ghost query = self.query@;
        let ghost policy = self.policy;
        let ghost file_size = self.file_size;
        let ghost shown = self.reported@;
        let ghost was_failed = self.failed;
        let mut found: Vec<SearchResult> = Vec::new();
        while !self.failed
            invariant
                self.tracked_hits(),
                self.scanner.fed() == fed,
                self.scanner.ended() == ended,
                self.query@ == query,
                self.policy == policy,
                self.file_size == file_size,
                was_failed ==> self.failed,
                !self.failed ==> self.reported@ == shown + hits(found@),
            ensures
                self.tracked_hits(),
                self.scanner.fed() == fed,
                self.scanner.ended() == ended,
                self.query@ == query,
                self.policy == policy,
                self.file_size == file_size,
                was_failed ==> self.failed,
                !self.failed ==> self.reported@ == shown + hits(found@),
                self.failed || next_line(self.scanner.pending(), self.scanner.ended()) is None,
            decreases self.scanner.pending().len(),
        {
            let ghost before = split_lines(self.scanner.consumed());
            let ghost held = hits(found@);
            match self.scanner.read_line() {
                Ok(Some(line)) => {
                    proof {
                        let after = split_lines(self.scanner.consumed());
                        assert(texts(after).drop_last() =~= texts(before));
                    }
                    self.line_number = self.line_number + 1;
                    match match_line(
                        &self.policy,
                        self.file_size,
                        self.line_number,
                        line,
                        self.query_lower.as_str(),
                    ) {
                        Some(hit) => {
                            proof {
                                self.reported@ = self.reported@.push(hit@);
                            }
                            found.push(hit);
                            assert(hits(found@) =~= held.push(hit@));
                        },
                        None => {},
                    }
                },
                Err(ScanError::InvalidUtf8) => {
                    self.failed = true;
                },
                _ => {
                    break ;
                },
            }
        }
        found
    }

    /// Adds `chunk` to the end of the file and gives the hits in the lines
    /// that it completes.
    ///
    /// Once a complete line is not valid UTF-8 the search has failed, and
    /// stays so.
    pub fn feed(&mut self, chunk: &[u8]) -> (r: Result<Vec<SearchResult>, ScanError>)
        requires
            old(self).wf(),
            old(self).fed().len() + chunk@.len() <= u64::MAX,
        ensures
            final(self).wf(),
            final(self).fed() == old(self).fed() + chunk@,
            final(self).query() == old(self).query(),
            final(self).policy() == old(self).policy(),
            final(self).file_size() == old(self).file_size(),
            match search_outcome(
                final(self).policy(),
                final(self).file_size(),
                complete_lines(final(self).fed()),
                final(self).query(),
            ) {
                Some(all) => r matches Ok(v) && final(self).reported() == all
                    && final(self).reported() == old(self).reported() + hits(v@),
                None => r == Err::<Vec<SearchResult>, ScanError>(ScanError::InvalidUtf8),
            },
    {
        self.scanner.feed(chunk);
        self.bytes = self.bytes + chunk.len() as u64;
        let found = self.drain();
        proof {
            lemma_first_newline(self.scanner.pending());
            let read = split_lines(self.scanner.consumed());
            let complete = complete_lines(self.scanner.fed());
            lemma_consumed_within_complete(self.scanner.consumed(), self.scanner.pending());
            assert forall|i: int| 0 <= i < read.len() implies complete[i] == read[i] by {}
        }
        if self.failed {
            Err(ScanError::InvalidUtf8)
        } else {
            Ok(found)
        }
    }

    /// Ends the file and gives the hit in its last line, if that line is not
    /// ended by a line feed and holds the query.
    ///
    /// With the hits handed out before, these are the hits of the whole
    /// file. The search is refused when a line is not valid UTF-8.
    pub fn finish(self) -> (r: Result<Vec<SearchResult>, ScanError>)
        requires
            self.wf(),
        ensures
            match search_outcome(
                self.policy(),
                self.file_size(),
                split_lines(self.fed()),
                self.query(),
            ) {
                Some(all) => r matches Ok(v) && self.reported() + hits(v@) == all,
                None => r == Err::<Vec<SearchResult>, ScanError>(ScanError::InvalidUtf8),
            },
    {
        let mut search = self;
        search.scanner.finish();
        let found = search.drain();
        proof {
            let read = split_lines(search.scanner.consumed());
            let all = split_lines(search.scanner.fed());
            lemma_consumed_lines_prefix(search.scanner.consumed(), search.scanner.pending());
            assert forall|i: int| 0 <= i < read.len() implies all[i] == read[i] by {}
        }
        if search.failed {
            Err(ScanError::InvalidUtf8)
        } else {
            Ok(found)
        }
    }
}

/// Searches the lines of `data` for `query`, letter case aside.
///
/// Each line that holds the query gives one hit, with the line's number, the
/// page it lies on under `policy` in a file of `data.len()` bytes, and the
/// line as it stands in the file. The search is refused when a line is not
/// valid UTF-8.
pub fn search(data: &[u8], query: &str, policy: &PagePolicy) -> (r: Result<
    Vec<SearchResult>,
    ScanError,
>)
    ensures
        match search_outcome(*policy, data@.len(), split_lines(data@), query@) {
            Some(all) => r matches Ok(v) && hits(v@) == all,
            None => r == Err::<Vec<SearchResult>, ScanError>(ScanError::InvalidUtf8),
        },
{
    let size: usize = data.len();
    let mut search = LineSearch::new(query, *policy, size as u64);
    let fed = search.feed(data);
    proof {
        lemma_complete_lines_stay(data@, Seq::<u8>::empty());
        let complete = complete_lines(data@);
        let all = split_lines(data@);
        assert forall|i: int| 0 <= i < complete.len() implies all[i] == complete[i] by {}
    }
    match fed {
        Ok(mut found) => match search.finish() {
            Ok(mut last) => {
                found.append(&mut last);
                Ok(found)
            },
            Err(_) => Err(ScanError::InvalidUtf8),
        },
        Err(_) => Err(ScanError::InvalidUtf8),
    }
}

/// The search is total: every line that holds the query, letter case aside,
/// has a hit with that line's number, its page, and the line as it stands.
pub proof fn lemma_search_finds_every_match(
    policy: PagePolicy,
    file_size: nat,
    lines: Seq<Seq<char>>,
    query: Seq<char>,
    i: int,
)
    requires
        0 <= i < lines.len(),
        line_matches(lines[i], query),
    ensures
        hits_of(policy, file_size, lines, query).contains(
            hit_at(policy, file_size, (i + 1) as nat, lines[i]),
        ),
    decreases lines.len(),
{
    let all = hits_of(policy, file_size, lines, query);
    let before = hits_of(policy, file_size, lines.drop_last(), query);
    if i == lines.len() - 1 {
        assert(all[all.len() - 1] == hit_at(policy, file_size, (i + 1) as nat, lines[i]));
    } else {
        lemma_search_finds_every_match(policy, file_size, lines.drop_last(), query, i);
        let hit = hit_at(policy, file_size, (i + 1) as nat, lines[i]);
        let k = choose|k: int| 0 <= k < before.len() && before[k] == hit;
        assert(all[k] == hit);
    }
}

/// The search reports nothing else: every hit stands for a line that holds
/// the query, with that line's number, page and text, and the hits come in
/// the order of the lines.
pub proof fn lemma_search_hits_are_matches(
    policy: PagePolicy,
    file_size: nat,
    lines: Seq<Seq<char>>,
    query: Seq<char>,
)
    ensures
        hits_of(policy, file_size, lines, query).len() <= lines.len(),
        forall|k: int|
            #![trigger hits_of(policy, file_size, lines, query)[k]]
            0 <= k < hits_of(policy, file_size, lines, query).len() ==> {
                let hit = hits_of(policy, file_size, lines, query)[k];
                &&& 1 <= hit.line_number <= lines.len()
                &&& line_matches(lines[hit.line_number - 1], query)
                &&& hit == hit_at(
                    policy,
                    file_size,
                    hit.line_number,
                    lines[hit.line_number - 1],
                )
            },
        forall|j: int, k: int|
            #![trigger hits_of(policy, file_size, lines, query)[j], hits_of(policy, file_size, lines, query)[k]]
            0 <= j < k < hits_of(policy, file_size, lines, query).len() ==> hits_of(
                policy,
                file_size,
                lines,
                query,
            )[j].line_number < hits_of(policy, file_size, lines, query)[k].line_number,
    decreases lines.len(),
{
    if lines.len() > 0 {
        let shorter = lines.drop_last();
        lemma_search_hits_are_matches(policy, file_size, shorter, query);
    }
}

} // verus!
