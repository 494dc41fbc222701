//! The tagged-SQL-file parser: a lexical state machine that splits a text
//! file into named, content-hashed groups of statements.
//!
//! Grammar, applied line by line: a line is blank if its trimmed form is
//! empty; a comment if its trimmed form starts with `--`; a tag declaration
//! if it is a comment containing the marker `tag:`; otherwise a query
//! fragment, which terminates a statement when its trimmed form ends in `;`.

use crate::error::SQLFileError;
use crate::hash::{sha256_digest, spec_concat_all, spec_group_hash, to_upper_hex};
use crate::tag_map::TagQueryMap;
use crate::text::{
    find_tag_rest, spec_split_lines, spec_tag_rest, spec_trim, split_lines, trim_str,
};
use vstd::prelude::*;

verus! {

/// The closed set of grammar-violation reasons.
#[derive(Debug, Clone, Copy, PartialEq, Eq, Structural)]
pub enum SyntaxErrorMessage {
    QueryGivenNoTag,
    TagNameIncompleteQuery,
    NoQueryForTag,
    CouldNotParseTagName,
    CommentInQuery,
    EOFIncompleteQuery,
    NoQueriesFound,
}

impl SyntaxErrorMessage {
    /// Wraps the reason and the 0-based line index as a syntax error.
    pub fn to_err<T>(&self, line_number: usize) -> (r: Result<T, SQLFileError>)
        ensures
            r == Result::<T, SQLFileError>::Err(SQLFileError::SyntaxError(line_number, *self)),
    {
        Err(SQLFileError::SyntaxError(line_number, *self))
    }
}

/// A line is blank when its trimmed form is empty.
pub open spec fn spec_is_blank(s: Seq<char>) -> bool {
    spec_trim(s).len() == 0
}

/// A line is a comment when its trimmed form starts with `--`.
pub open spec fn spec_is_comment(s: Seq<char>) -> bool {
    let t = spec_trim(s);
    t.len() >= 2 && t[0] == '-' && t[1] == '-'
}

/// A line declares a tag when it is a comment containing the marker `tag:`.
pub open spec fn spec_is_tag_line(s: Seq<char>) -> bool {
    spec_is_comment(s) && spec_tag_rest(spec_trim(s)) is Some
}

/// The declared tag name: what follows the first `tag:` of the trimmed line,
/// trimmed; none when that remainder is empty or there is no marker.
pub open spec fn spec_tag_name(s: Seq<char>) -> Option<Seq<char>> {
    match spec_tag_rest(spec_trim(s)) {
        Option::Some(rest) => {
            let t = spec_trim(rest);
            if t.len() == 0 {
                Option::None
            } else {
                Option::Some(t)
            }
        },
        Option::None => Option::None,
    }
}

/// A line is a query fragment when it is neither blank nor a comment.
pub open spec fn spec_is_query(s: Seq<char>) -> bool {
    !spec_is_blank(s) && !spec_is_comment(s)
}

/// A query fragment terminates a statement when its trimmed form ends in `;`.
pub open spec fn spec_is_finishing(s: Seq<char>) -> bool {
    spec_is_query(s) && spec_trim(s).last() == ';'
}

/// A fragment joined onto an in-progress statement: a newline separates it
/// from previously accumulated fragments of the same statement.
pub open spec fn spec_append_frag(cur: Seq<char>, line: Seq<char>) -> Seq<char> {
    if cur.len() == 0 {
        line
    } else {
        cur + seq!['\n'] + line
    }
}

/// One raw line of the file beside its trimmed form, with the lexical
/// classification the grammar needs.
pub struct FileLine {
    line: String,
    original_line: String,
}

impl FileLine {
    /// The stored trimmed form agrees with the original line.
    pub closed spec fn wf(&self) -> bool {
        self.line@ == spec_trim(self.original_line@)
    }

    pub closed spec fn original(&self) -> Seq<char> {
        self.original_line@
    }

    pub fn new(line: &str) -> (r: FileLine)
        ensures
            r.wf(),
            r.original() == line@,
    {
        let new_line = trim_str(line).to_owned();
        FileLine { line: new_line, original_line: line.to_owned() }
    }

    /// The line's original, untrimmed text.
    pub fn original_line(&self) -> (r: &str)
        ensures
            r@ == self.original(),
    {
        self.original_line.as_str()
    }

    pub fn is_empty(&self) -> (r: bool)
        requires
            self.wf(),
        ensures
            r == spec_is_blank(self.original()),
    {
        self.line.as_str().is_empty()
    }

    pub fn is_comment_line(&self) -> (r: bool)
        requires
            self.wf(),
        ensures
            r == spec_is_comment(self.original()),
    {
        let t = self.line.as_str();
        let len = t.unicode_len();
        len >= 2 && t.get_char(0) == '-' && t.get_char(1) == '-'
    }

    pub fn is_tag_name(&self) -> (r: bool)
        requires
            self.wf(),
        ensures
            r == spec_is_tag_line(self.original()),
    {
        self.is_comment_line() && find_tag_rest(self.line.as_str()).is_some()
    }

    pub fn get_tag_name(&self) -> (r: Option<String>)
        requires
            self.wf(),
        ensures
            match r {
                Option::Some(t) => spec_tag_name(self.original()) == Option::Some(t@),
                Option::None => spec_tag_name(self.original()) is None,
            },
    {
        match find_tag_rest(self.line.as_str()) {
            Option::Some(rest) => {
                let tag = trim_str(rest);
                if tag.is_empty() {
                    None
                } else {
                    Some(tag.to_owned())
                }
            },
            Option::None => None,
        }
    }

    pub fn is_query_string(&self) -> (r: bool)
        requires
            self.wf(),
        ensures
            r == spec_is_query(self.original()),
    {
        !self.is_empty() && !self.is_comment_line()
    }

    pub fn is_finishing_query(&self) -> (r: bool)
        requires
            self.wf(),
        ensures
            r == spec_is_finishing(self.original()),
    {
        if !self.is_query_string() {
            return false;
        }
        let t = self.line.as_str();
        let len = t.unicode_len();
        t.get_char(len - 1) == ';'
    }
}

/// A finished group: the statements completed under one tag, in order, and
/// the content hash of the whole group.
pub struct QuerySet {
    pub queries: Vec<String>,
    pub hash: String,
}

/// The mathematical shape of a finished group.
pub ghost struct QuerySetV {
    pub queries: Seq<Seq<char>>,
    pub hash: Seq<char>,
}

impl View for QuerySet {
    type V = QuerySetV;

    open spec fn view(&self) -> QuerySetV {
        QuerySetV { queries: self.queries.deep_view(), hash: self.hash@ }
    }
}

/// The group a tag finalizes to: its statements and their content hash.
pub open spec fn spec_group_of(qs: Seq<Seq<char>>) -> QuerySetV {
    QuerySetV { queries: qs, hash: spec_group_hash(qs) }
}

/// The accumulator the parser carries: the statements finished so far for the
/// open tag, the in-progress statement text, and, once computed, the group's
/// content hash.
pub struct QueryReadState {
    pub queries: Vec<String>,
    pub current_query: String,
    pub hash: String,
}

impl QueryReadState {
    pub open spec fn queries_view(&self) -> Seq<Seq<char>> {
        self.queries.deep_view()
    }

    pub fn new() -> (r: QueryReadState)
        ensures
            r.queries_view() == Seq::<Seq<char>>::empty(),
            r.current_query@ == Seq::<char>::empty(),
            r.hash@ == Seq::<char>::empty(),
    {
        let r = QueryReadState { queries: Vec::new(), current_query: String::new(), hash: String::new() };
        proof {
            assert(r.queries_view() =~= Seq::<Seq<char>>::empty());
        }
        r
    }

    pub fn is_empty(&self) -> (r: bool)
        ensures
            r == (self.queries_view().len() == 0),
    {
        self.queries.len() == 0
    }

    pub fn has_unfinished_query(&self) -> (r: bool)
        ensures
            r == (self.current_query@.len() > 0),
    {
        !self.current_query.as_str().is_empty()
    }

    pub fn add_query_string(&mut self, st: &str)
        ensures
            final (self).current_query@ == spec_append_frag(old(self).current_query@, st@),
            final (self).queries == old(self).queries,
            final (self).hash == old(self).hash,
    {
        if !self.current_query.as_str().is_empty() {
            proof {
                reveal_strlit("\n");
            }
            self.current_query.append("\n");
            proof {
                assert("\n"@ =~= seq!['\n']);
            }
        }
        self.current_query.append(st);
        proof {
            if old(self).current_query@.len() > 0 {
                assert(self.current_query@ =~= spec_append_frag(
                    old(self).current_query@,
                    st@,
                ));
            }
        }
    }

    pub fn finish_query(&mut self, st: &str)
        ensures
            final (self).queries_view() == old(self).queries_view().push(
                spec_append_frag(old(self).current_query@, st@),
            ),
            final (self).current_query@ == Seq::<char>::empty(),
            final (self).hash == old(self).hash,
    {
        self.add_query_string(st);
        let q = self.current_query.clone();
        let ghost prior = self.queries.deep_view();
        self.queries.push(q);
        self.current_query = String::new();
        proof {
            assert(self.queries.deep_view() =~= prior.push(
                spec_append_frag(old(self).current_query@, st@),
            ));
        }
    }

    /// Computes the group's content hash over the concatenation of the
    /// finished statements, in completion order, with no separator.
    pub fn compute_hash(self) -> (r: Self)
        ensures
            r.queries_view() == self.queries_view(),
            r.current_query@ == self.current_query@,
            r.hash@ == spec_group_hash(self.queries_view()),
    {
        let ghost qs = self.queries.deep_view();
        let mut all_queries = String::new();
        let mut i: usize = 0;
        while i < self.queries.len()
            invariant
                0 <= i <= qs.len(),
                qs == self.queries.deep_view(),
                qs.len() == self.queries.len(),
                all_queries@ == spec_concat_all(qs.take(i as int)),
            decreases qs.len() - i,
        {
            all_queries.append(self.queries[i].as_str());
            proof {
                assert(qs.take(i + 1).drop_last() =~= qs.take(i as int));
                assert(qs.take(i + 1).last() == qs[i as int]);
                assert(all_queries@ =~= spec_concat_all(qs.take(i + 1)));
            }
            i = i + 1;
        }
        proof {
            assert(qs.take(qs.len() as int) =~= qs);
        }
        let digest = sha256_digest(all_queries.as_str());
        let hash = to_upper_hex(&digest);
        QueryReadState { queries: self.queries, current_query: self.current_query, hash }
    }

    pub fn into_query_set(self) -> (r: QuerySet)
        ensures
            r@.queries == self.queries_view(),
            r@.hash == self.hash@,
    {
        QuerySet { queries: self.queries, hash: self.hash }
    }
}

/// The state the parser carries across the line scan: the open tag (empty
/// when none is open), the groups finalized so far, and the open tag's
/// finished statements and in-progress statement text.
pub ghost struct ParseState {
    pub tag: Seq<char>,
    pub groups: Map<Seq<char>, QuerySetV>,
    pub queries: Seq<Seq<char>>,
    pub current: Seq<char>,
}

/// The state before any line is read: no tag open, nothing accumulated.
pub open spec fn init_parse_state() -> ParseState {
    ParseState {
        tag: Seq::<char>::empty(),
        groups: Map::<Seq<char>, QuerySetV>::empty(),
        queries: Seq::<Seq<char>>::empty(),
        current: Seq::<char>::empty(),
    }
}

/// One transition of the parser on one raw line, in the order the grammar
/// fixes: terminator, tag declaration, comment, query fragment, blank.
pub open spec fn spec_step(st: ParseState, line: Seq<char>) -> Result<
    ParseState,
    SyntaxErrorMessage,
> {
    if spec_is_finishing(line) {
        if st.tag.len() == 0 {
            Result::Err(SyntaxErrorMessage::QueryGivenNoTag)
        } else {
            Result::Ok(
                ParseState {
                    queries: st.queries.push(spec_append_frag(st.current, line)),
                    current: Seq::<char>::empty(),
                    ..st
                },
            )
        }
    } else if spec_is_tag_line(line) {
        if st.current.len() > 0 {
            Result::Err(SyntaxErrorMessage::TagNameIncompleteQuery)
        } else if st.tag.len() > 0 && st.queries.len() == 0 {
            Result::Err(SyntaxErrorMessage::NoQueryForTag)
        } else {
            let st1 = if st.tag.len() > 0 {
                ParseState {
                    groups: st.groups.insert(st.tag, spec_group_of(st.queries)),
                    queries: Seq::<Seq<char>>::empty(),
                    current: Seq::<char>::empty(),
                    ..st
                }
            } else {
                st
            };
            match spec_tag_name(line) {
                Option::Some(t) => Result::Ok(ParseState { tag: t, ..st1 }),
                Option::None => Result::Err(SyntaxErrorMessage::CouldNotParseTagName),
            }
        }
    } else if spec_is_comment(line) {
        if st.current.len() > 0 {
            Result::Err(SyntaxErrorMessage::CommentInQuery)
        } else {
            Result::Ok(st)
        }
    } else if spec_is_query(line) {
        Result::Ok(ParseState { current: spec_append_frag(st.current, line), ..st })
    } else {
        Result::Ok(st)
    }
}

/// Folds `spec_step` over the lines from position `i` on; an error carries
/// the 0-based index of the line at which it was detected.
pub open spec fn spec_parse_lines(lines: Seq<Seq<char>>, st: ParseState, i: int) -> Result<
    ParseState,
    (int, SyntaxErrorMessage),
>
    decreases lines.len() - i,
    when 0 <= i <= lines.len()
{
    if i >= lines.len() {
        Result::Ok(st)
    } else {
        match spec_step(st, lines[i]) {
            Result::Ok(st2) => spec_parse_lines(lines, st2, i + 1),
            Result::Err(e) => Result::Err((i, e)),
        }
    }
}

/// The end-of-file checks and the finalization of the last open tag; `n` is
/// the line index an end-of-file error carries.
pub open spec fn spec_finalize(st: ParseState, n: int) -> Result<
    Map<Seq<char>, QuerySetV>,
    (int, SyntaxErrorMessage),
> {
    if st.current.len() > 0 {
        Result::Err((n, SyntaxErrorMessage::EOFIncompleteQuery))
    } else if st.tag.len() == 0 && st.queries.len() == 0 {
        Result::Err((n, SyntaxErrorMessage::NoQueriesFound))
    } else if st.tag.len() > 0 && st.queries.len() == 0 {
        Result::Err((n, SyntaxErrorMessage::NoQueryForTag))
    } else {
        Result::Ok(st.groups.insert(st.tag, spec_group_of(st.queries)))
    }
}

/// What parsing a whole text yields: the tag-to-group mapping, or the first
/// grammar violation with the 0-based line index at which it was detected.
pub open spec fn spec_parse(text: Seq<char>) -> Result<
    Map<Seq<char>, QuerySetV>,
    (int, SyntaxErrorMessage),
> {
    let lines = spec_split_lines(text);
    match spec_parse_lines(lines, init_parse_state(), 0) {
        Result::Ok(st) => spec_finalize(st, lines.len() as int),
        Result::Err(e) => Result::Err(e),
    }
}

/// The queries read from one SQL file, grouped by the tag they are given in
/// the file.
pub struct SQLFile {
    pub name: String,
    pub query_hash_map: TagQueryMap,
}

/// The mathematical shape of a parsed file.
pub ghost struct SQLFileV {
    pub name: Seq<char>,
    pub groups: Map<Seq<char>, QuerySetV>,
}

impl View for SQLFile {
    type V = SQLFileV;

    open spec fn view(&self) -> SQLFileV {
        SQLFileV { name: self.name@, groups: self.query_hash_map@ }
    }
}

impl SQLFile {
    pub open spec fn wf(&self) -> bool {
        self.query_hash_map.wf()
    }

    /// Parses a text into its tagged, content-hashed statement groups, or
    /// reports the first grammar violation with its 0-based line index.
    pub fn new_from_string(name: &str, text: &str) -> (r: Result<SQLFile, SQLFileError>)
        ensures
            match r {
                Result::Ok(f) => {
                    &&& spec_parse(text@) is Ok
                    &&& f.wf()
                    &&& f@.name == name@
                    &&& f@.groups == spec_parse(text@)->Ok_0
                },
                Result::Err(e) => {
                    &&& spec_parse(text@) is Err
                    &&& e == SQLFileError::SyntaxError(
                        spec_parse(text@)->Err_0.0 as usize,
                        spec_parse(text@)->Err_0.1,
                    )
                },
            },
    {
        let mut tag_name = String::new();
        let mut query_hash_map = TagQueryMap::new();
        let mut current_query_set = QueryReadState::new();
        let lines = split_lines(text);
        let ghost lns = lines.deep_view();
        let n = lines.len();
        let mut i: usize = 0;
        proof {
            assert(lns.len() == n);
        }
        while i < n
            invariant
                0 <= i <= n,
                n == lines@.len(),
                lns == lines.deep_view(),
                lns == spec_split_lines(text@),
                lns.len() == n,
                query_hash_map.wf(),
                spec_parse_lines(lns, init_parse_state(), 0) == spec_parse_lines(
                    lns,
                    (ParseState {
                        tag: tag_name@,
                        groups: query_hash_map@,
                        queries: current_query_set.queries_view(),
                        current: current_query_set.current_query@,
                    }),
                    i as int,
                ),
            decreases n - i,
        {
            let ghost st = ParseState {
                tag: tag_name@,
                groups: query_hash_map@,
                queries: current_query_set.queries_view(),
                current: current_query_set.current_query@,
            };
            let ghost line = lns[i as int];
            let file_line = FileLine::new(lines[i].as_str());
            proof {
                assert(lines.deep_view()[i as int] == lines@[i as int]@);
                assert(file_line.original() == line);
            }
            if file_line.is_finishing_query() {
                if tag_name.as_str().is_empty() {
                    proof {
                        assert(spec_step(st, line) == Result::<
                            ParseState,
                            SyntaxErrorMessage,
                        >::Err(SyntaxErrorMessage::QueryGivenNoTag));
                    }
                    return SyntaxErrorMessage::QueryGivenNoTag.to_err(i);
                }
                current_query_set.finish_query(file_line.original_line());
            } else if file_line.is_tag_name() {
                if current_query_set.has_unfinished_query() {
                    return SyntaxErrorMessage::TagNameIncompleteQuery.to_err(i);
                }
                let tag_open = !tag_name.as_str().is_empty();
                if tag_open && current_query_set.is_empty() {
                    return SyntaxErrorMessage::NoQueryForTag.to_err(i);
                }
                if tag_open {
                    let finished = current_query_set;
                    current_query_set = QueryReadState::new();
                    let query_set = finished.compute_hash().into_query_set();
                    proof {
                        assert(query_set@ == spec_group_of(st.queries));
                    }
                    query_hash_map.insert(tag_name.clone(), query_set);
                }
                match file_line.get_tag_name() {
                    Option::Some(t) => {
                        tag_name = t;
                    },
                    Option::None => {
                        return SyntaxErrorMessage::CouldNotParseTagName.to_err(i);
                    },
                }
                proof {
                    assert(current_query_set.current_query@ =~= st.current);
                    if st.tag.len() == 0 {
                        assert(current_query_set.queries_view() =~= st.queries);
                    }
                }
            } else if file_line.is_comment_line() {
                if current_query_set.has_unfinished_query() {
                    return SyntaxErrorMessage::CommentInQuery.to_err(i);
                }
            } else if file_line.is_query_string() {
                current_query_set.add_query_string(file_line.original_line());
            }
            proof {
                let st2 = ParseState {
                    tag: tag_name@,
                    groups: query_hash_map@,
                    queries: current_query_set.queries_view(),
                    current: current_query_set.current_query@,
                };
                assert(spec_step(st, line) == Result::<ParseState, SyntaxErrorMessage>::Ok(st2));
            }
            i = i + 1;
        }
        let ghost st = ParseState {
            tag: tag_name@,
            groups: query_hash_map@,
            queries: current_query_set.queries_view(),
            current: current_query_set.current_query@,
        };
        proof {
            assert(spec_parse_lines(lns, init_parse_state(), 0) == Result::<
                ParseState,
                (int, SyntaxErrorMessage),
            >::Ok(st));
        }
        if current_query_set.has_unfinished_query() {
            return SyntaxErrorMessage::EOFIncompleteQuery.to_err(n);
        }
        let tag_open = !tag_name.as_str().is_empty();
        if !tag_open && current_query_set.is_empty() {
            return SyntaxErrorMessage::NoQueriesFound.to_err(n);
        }
        if tag_open && current_query_set.is_empty() {
            return SyntaxErrorMessage::NoQueryForTag.to_err(n);
        }
        let query_set = current_query_set.compute_hash().into_query_set();
        proof {
            assert(query_set@ == spec_group_of(st.queries));
        }
        query_hash_map.insert(tag_name, query_set);
        Ok(SQLFile { name: name.to_owned(), query_hash_map })
    }
}

/// Every group of the mapping carries the content hash of its own statements.
pub open spec fn groups_hashed(m: Map<Seq<char>, QuerySetV>) -> bool {
    forall|t: Seq<char>| m.contains_key(t) ==> #[trigger] m[t] == spec_group_of(m[t].queries)
}

proof fn lemma_step_groups_hashed(st: ParseState, line: Seq<char>)
    requires
        groups_hashed(st.groups),
    ensures
        spec_step(st, line) matches Ok(st2) ==> groups_hashed(st2.groups),
{
    match spec_step(st, line) {
        Result::Ok(st2) => {
            assert forall|t: Seq<char>| st2.groups.contains_key(t) implies #[trigger] st2.groups[t]
                == spec_group_of(st2.groups[t].queries) by {
                if st2.groups != st.groups {
                    if t != st.tag {
                        assert(st.groups.contains_key(t));
                    }
                }
            }
        },
        Result::Err(_) => {},
    }
}

proof fn lemma_parse_lines_groups_hashed(lines: Seq<Seq<char>>, st: ParseState, i: int)
    requires
        groups_hashed(st.groups),
        0 <= i <= lines.len(),
    ensures
        spec_parse_lines(lines, st, i) matches Ok(st2) ==> groups_hashed(st2.groups),
    decreases lines.len() - i,
{
    if i < lines.len() {
        match spec_step(st, lines[i]) {
            Result::Ok(st2) => {
                lemma_step_groups_hashed(st, lines[i]);
                lemma_parse_lines_groups_hashed(lines, st2, i + 1);
            },
            Result::Err(_) => {},
        }
    }
}

/// A group's content hash is a pure function of its statements: every group
/// of a successful parse is exactly the hashed form of its own statement
/// sequence.
pub proof fn lemma_parsed_group_hash(text: Seq<char>, tag: Seq<char>)
    requires
        spec_parse(text) is Ok,
        spec_parse(text)->Ok_0.contains_key(tag),
    ensures
        spec_parse(text)->Ok_0[tag] == spec_group_of(spec_parse(text)->Ok_0[tag].queries),
        spec_parse(text)->Ok_0[tag].hash == spec_group_hash(spec_parse(text)->Ok_0[tag].queries),
{
    let lines = spec_split_lines(text);
    lemma_parse_lines_groups_hashed(lines, init_parse_state(), 0);
    let st = spec_parse_lines(lines, init_parse_state(), 0)->Ok_0;
    assert(groups_hashed(st.groups));
    let m = spec_parse(text)->Ok_0;
    assert forall|t: Seq<char>| m.contains_key(t) implies #[trigger] m[t] == spec_group_of(
        m[t].queries,
    ) by {
        if t != st.tag {
            assert(st.groups.contains_key(t));
        }
    }
}

/// Parsing is a function of the file text alone: two parse results pinned to
/// the same bytes agree on every tag's group, and so on every content hash.
pub proof fn lemma_hash_deterministic(f1: SQLFileV, f2: SQLFileV, text: Seq<char>, tag: Seq<char>)
    requires
        spec_parse(text) is Ok,
        f1.groups == spec_parse(text)->Ok_0,
        f2.groups == spec_parse(text)->Ok_0,
        f1.groups.contains_key(tag),
    ensures
        f2.groups.contains_key(tag),
        f1.groups[tag] == f2.groups[tag],
        f1.groups[tag].hash == f2.groups[tag].hash,
{
}

} // verus!
