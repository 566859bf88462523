//! A free-text index over merged pull requests: what is stored for each,
//! how it is read back, and the index itself.
use vstd::prelude::*;
use crate::github::{PullRequestDetails, checks_label, checks_status, min};
use vstd::multiset::Multiset;
use tantivy::collector::TopDocs;
use tantivy::query::{QueryParser, QueryParserError};
use tantivy::schema::{Field, Schema, SchemaBuilder, TextOptions, STORED, TEXT};
use tantivy::{Document, Index, IndexWriter, Searcher, TantivyError};
use crate::text::{
    strs, join, join_strings, decimal, decimal_string, chars_of, string_of, piece_scan,
    split_on, strip_cr, lines, find_from, find_in, starts_with, scan_pieces, parsed_u64,
    parse_u64, split_string, single_line, lemma_scan_single_lines, lemma_split_join_newlines,
    lemma_decimal_round_trip,
};

verus! {

/// The part of `line` after the first `sep` and before the next one, as
/// `line.split(sep).nth(1)` gives it; none where `sep` does not occur.
pub open spec fn second_piece(line: Seq<char>, sep: Seq<char>) -> Option<Seq<char>> {
    match find_from(line, sep, 0) {
        None => None,
        Some(i) => {
            let start = i + sep.len();
            match find_from(line, sep, start) {
                None => Some(line.subrange(start, line.len() as int)),
                Some(j) => Some(line.subrange(start, j)),
            }
        },
    }
}

pub open spec fn is_file_header(line: Seq<char>) -> bool {
    line.len() >= "diff --git"@.len() && line.subrange(0, "diff --git"@.len() as int) == "diff --git"@
}

/// The new paths of the file sections that `ls` introduce, in order.
pub open spec fn files_of_lines(ls: Seq<Seq<char>>) -> Seq<Seq<char>>
    decreases ls.len(),
{
    if ls.len() == 0 {
        Seq::empty()
    } else {
        let rest = files_of_lines(ls.drop_last());
        if is_file_header(ls.last()) && second_piece(ls.last(), " b/"@) is Some {
            rest.push(second_piece(ls.last(), " b/"@)->Some_0)
        } else {
            rest
        }
    }
}

/// The files a diff touches: for each line that starts a file section
/// ("diff --git a/x b/y"), the text after its first " b/".
pub open spec fn diff_files(diff: Seq<char>) -> Seq<Seq<char>> {
    files_of_lines(lines(diff))
}

fn strip_cr_chars(line: &mut Vec<char>)
    ensures
        final(line)@ == strip_cr(old(line)@),
{
    let n = line.len();
    if n > 0 && line[n - 1] == '\r' {
        line.pop();
        assert(line@ =~= strip_cr(old(line)@));
    }
}

/// The lines of `s`, as `str::lines` splits them.
fn lines_of(s: &Vec<char>) -> (r: Vec<Vec<char>>)
    ensures
        r@.map_values(|l: Vec<char>| l@) == lines(s@),
{
    let (closed, open) = scan_pieces(s, '\n');
    let ghost closed_view = piece_scan(s@, '\n').0;
    let mut r: Vec<Vec<char>> = Vec::new();
    let mut k: usize = 0;
    while k < closed.len()
        invariant
            k <= closed.len(),
            r.len() == k,
            closed@.map_values(|l: Vec<char>| l@) == closed_view,
            closed_view == piece_scan(s@, '\n').0,
            r@.map_values(|l: Vec<char>| l@) =~= closed_view.map_values(|l: Seq<char>| strip_cr(l)).take(k as int),
        decreases closed.len() - k,
    {
        let mut line = closed[k].clone();
        assert(line@ == closed_view[k as int]);
        strip_cr_chars(&mut line);
        r.push(line);
        k = k + 1;
    }
    assert(closed_view.map_values(|l: Seq<char>| strip_cr(l)).take(k as int) =~= closed_view.map_values(
        |l: Seq<char>| strip_cr(l),
    ));
    if open.len() > 0 {
        let ghost before = r@.map_values(|l: Vec<char>| l@);
        r.push(open);
        assert(r@.map_values(|l: Vec<char>| l@) =~= before.push(piece_scan(s@, '\n').1));
    }
    r
}

fn second_piece_of(line: &Vec<char>, sep: &Vec<char>) -> (r: Option<String>)
    ensures
        r matches Some(p) ==> second_piece(line@, sep@) == Some(p@),
        r is None ==> second_piece(line@, sep@) is None,
{
    match find_in(line, sep, 0) {
        None => None,
        Some(i) => {
            proof {
                lemma_find_from_bounds(line@, sep@, 0);
                assert(find_from(line@, sep@, 0) == Some(i as int));
                assert(i + sep.len() <= line.len());
            }
            let start = i + sep.len();
            match find_in(line, sep, start) {
                None => Some(string_of(line, start, line.len())),
                Some(j) => {
                    proof {
                        lemma_find_from_bounds(line@, sep@, start as int);
                        assert(find_from(line@, sep@, start as int) == Some(j as int));
                        assert(start <= j);
                    }
                    Some(string_of(line, start, j))
                },
            }
        },
    }
}

/// A position that `find_from` gives lies at or after `from`, with the
/// whole pattern inside `s`.
pub proof fn lemma_find_from_bounds(s: Seq<char>, pat: Seq<char>, from: int)
    ensures
        find_from(s, pat, from) matches Some(i) ==> from <= i && i + pat.len() <= s.len(),
    decreases s.len() + 1 - from,
{
    if from < 0 || from + pat.len() > s.len() {
    } else if s.subrange(from, from + pat.len()) == pat {
    } else {
        lemma_find_from_bounds(s, pat, from + 1);
    }
}

/// The paths of the files that `diff` touches: the new-path side of each
/// line that starts a file section. A heuristic: renames and binary files
/// may come out wrong.
pub fn extract_files_from_diff(diff: &str) -> (r: Vec<String>)
    ensures
        strs(r@) == diff_files(diff@),
{
    let chars = chars_of(diff);
    let ls = lines_of(&chars);
    let header = chars_of("diff --git");
    let sep = chars_of(" b/");
    let ghost lv = ls@.map_values(|l: Vec<char>| l@);
    let mut r: Vec<String> = Vec::new();
    let mut k: usize = 0;
    while k < ls.len()
        invariant
            k <= ls.len(),
            lv == ls@.map_values(|l: Vec<char>| l@),
            lv == lines(diff@),
            header@ == "diff --git"@,
            sep@ == " b/"@,
            strs(r@) == files_of_lines(lv.take(k as int)),
        decreases ls.len() - k,
    {
        proof {
            assert(lv.take(k + 1).drop_last() =~= lv.take(k as int));
            assert(lv.take(k + 1).last() == ls@[k as int]@);
        }
        if starts_with(&ls[k], &header) {
            match second_piece_of(&ls[k], &sep) {
                Some(p) => {
                    let ghost before = strs(r@);
                    r.push(p);
                    assert(strs(r@) =~= before.push(p@));
                },
                None => {},
            }
        }
        k = k + 1;
    }
    assert(lv.take(k as int) =~= lv);
    r
}

/// Every line is a single line.
pub proof fn lemma_lines_single(s: Seq<char>)
    ensures
        forall|k: int| 0 <= k < lines(s).len() ==> single_line(#[trigger] lines(s)[k]),
{
    lemma_scan_single_lines(s);
    let closed = piece_scan(s, '\n').0;
    assert forall|k: int| 0 <= k < lines(s).len() implies single_line(#[trigger] lines(s)[k]) by {
        if k < closed.len() {
            let l = closed[k];
            assert(single_line(l));
            if l.len() > 0 && l.last() == '\r' {
                if l.drop_last().contains('\n') {
                    let j = choose|j: int| 0 <= j < l.drop_last().len() && l.drop_last()[j] == '\n';
                    assert(l[j] == '\n');
                }
            }
        }
    }
}

/// The files of a diff are single lines.
pub proof fn lemma_diff_files_single(ls: Seq<Seq<char>>)
    requires
        forall|k: int| 0 <= k < ls.len() ==> single_line(#[trigger] ls[k]),
    ensures
        forall|k: int| 0 <= k < files_of_lines(ls).len() ==> single_line(#[trigger] files_of_lines(ls)[k]),
    decreases ls.len(),
{
    if ls.len() > 0 {
        let init = ls.drop_last();
        assert forall|k: int| 0 <= k < init.len() implies single_line(#[trigger] init[k]) by {
            assert(init[k] == ls[k]);
        }
        lemma_diff_files_single(init);
        let line = ls.last();
        assert(single_line(ls[ls.len() - 1]));
        if is_file_header(line) && second_piece(line, " b/"@) is Some {
            let p = second_piece(line, " b/"@)->Some_0;
            lemma_find_from_bounds(line, " b/"@, 0);
            let i = find_from(line, " b/"@, 0)->Some_0;
            lemma_find_from_bounds(line, " b/"@, i + " b/"@.len());
            let start = i + " b/"@.len();
            assert(single_line(p)) by {
                if p.contains('\n') {
                    let j = choose|j: int| 0 <= j < p.len() && p[j] == '\n';
                    assert(p[j] == line[start + j]);
                    assert(line.contains('\n'));
                }
            }
            let files = files_of_lines(ls);
            assert(files == files_of_lines(init).push(p));
            assert forall|k: int| 0 <= k < files.len() implies single_line(#[trigger] files[k]) by {
                if k < files.len() - 1 {
                    assert(files[k] == files_of_lines(init)[k]);
                }
            }
        } else {
            assert(files_of_lines(ls) == files_of_lines(init));
        }
    }
}

/// What the index keeps of one pull request: the identifier, title, status,
/// aggregate check status and touched files are stored and read back; the
/// title, description, files and diff are searchable.
#[derive(Debug, Clone)]
pub struct IndexDocument {
    pub pr_number: String,
    pub title: String,
    pub description: String,
    pub status: String,
    pub checks_status: String,
    pub files: String,
    pub diff: String,
}

/// The document that represents `pr`.
pub open spec fn document_of(pr: PullRequestDetails, d: IndexDocument) -> bool {
    &&& d.pr_number@ == decimal(pr.number as nat)
    &&& d.title@ == pr.title@
    &&& d.description@ == pr.description@
    &&& d.status@ == pr.state@
    &&& d.checks_status@ == checks_label(pr.workflows@)
    &&& d.files@ == join(diff_files(pr.diff@), "\n"@)
    &&& d.diff@ == pr.diff@
}

impl IndexDocument {
    /// The document for a pull request: its number in decimal, its checks
    /// aggregated, the files its diff touches one per line.
    pub fn from_details(pr: &PullRequestDetails) -> (r: IndexDocument)
        ensures
            document_of(*pr, r),
    {
        let files = extract_files_from_diff(pr.diff.as_str());
        IndexDocument {
            pr_number: decimal_string(pr.number),
            title: pr.title.clone(),
            description: pr.description.clone(),
            status: pr.state.clone(),
            checks_status: checks_status(&pr.workflows),
            files: join_strings(&files, "\n"),
            diff: pr.diff.clone(),
        }
    }
}

/// One hit of a query, with the stored fields of its document.
#[derive(Debug, Clone)]
pub struct SearchResult {
    pub pr_number: u64,
    pub title: String,
    pub status: String,
    pub checks_status: String,
    pub files: Vec<String>,
    /// The engine's relevance score, as the bits of an IEEE 754 single; it
    /// only compares within the results of one query.
    pub score_bits: u32,
}

/// The file list stored as `text`: none for the empty text, else its
/// newline-separated pieces.
pub open spec fn stored_files(text: Seq<char>) -> Seq<Seq<char>> {
    if text.len() == 0 { Seq::empty() } else { split_on(text, '\n') }
}

impl SearchResult {
    /// A result from the stored texts of a hit; none where the stored
    /// identifier is not a 64-bit decimal number.
    pub fn from_stored(
        pr_number: &String,
        title: String,
        status: String,
        checks_status: String,
        files: &String,
        score_bits: u32,
    ) -> (r: Option<SearchResult>)
        ensures
            r is Some <==> parsed_u64(pr_number@) is Some,
            r matches Some(res) ==> {
                &&& res.pr_number as nat == parsed_u64(pr_number@)->Some_0
                &&& res.title == title
                &&& res.status == status
                &&& res.checks_status == checks_status
                &&& strs(res.files@) == stored_files(files@)
                &&& res.score_bits == score_bits
            },
    {
        match parse_u64(pr_number) {
            None => None,
            Some(n) => {
                let files = if files.as_str().is_empty() {
                    let none: Vec<String> = Vec::new();
                    assert(strs(none@) =~= Seq::<Seq<char>>::empty());
                    none
                } else {
                    split_string(files, '\n')
                };
                Some(SearchResult { pr_number: n, title, status, checks_status, files, score_bits })
            },
        }
    }
}

/// The stored fields of a pull request's document read back as a search
/// result give its number, title, state and aggregate check status, and the
/// files its diff touches; the one exception is a diff whose only file path
/// is empty, which is stored as the empty text and so reads back as none.
pub proof fn lemma_stored_fields_round_trip(pr: PullRequestDetails, d: IndexDocument)
    requires
        document_of(pr, d),
        diff_files(pr.diff@) != seq![Seq::<char>::empty()],
    ensures
        parsed_u64(d.pr_number@) == Some(pr.number as nat),
        d.title@ == pr.title@,
        d.status@ == pr.state@,
        d.checks_status@ == checks_label(pr.workflows@),
        stored_files(d.files@) == diff_files(pr.diff@),
{
    lemma_decimal_round_trip(pr.number as nat);
    lemma_join_lines_round_trip(diff_files(pr.diff@), pr.diff@);
}

/// Joining a diff's files with newlines and reading them back as a stored
/// file list gives the files again, unless the only file is the empty path.
pub proof fn lemma_join_lines_round_trip(files: Seq<Seq<char>>, diff: Seq<char>)
    requires
        files == diff_files(diff),
        files != seq![Seq::<char>::empty()],
    ensures
        stored_files(join(files, "\n"@)) == files,
{
    reveal_strlit("\n");
    lemma_lines_single(diff);
    lemma_diff_files_single(lines(diff));
    if files.len() == 0 {
        assert(join(files, "\n"@) =~= Seq::<char>::empty());
    } else {
        lemma_split_join_newlines(files);
        if files.len() == 1 {
            assert(files[0].len() > 0) by {
                if files[0].len() == 0 {
                    assert(files =~= seq![Seq::<char>::empty()]);
                }
            }
        } else {
            lemma_join_len(files);
        }
    }
}

/// Joining two or more parts with newlines gives a non-empty text.
proof fn lemma_join_len(parts: Seq<Seq<char>>)
    requires
        parts.len() >= 2,
    ensures
        join(parts, "\n"@).len() > 0,
{
    reveal_strlit("\n");
}

#[verifier::external_type_specification]
#[verifier::external_body]
pub struct ExIndex(Index);

#[verifier::external_type_specification]
#[verifier::external_body]
pub struct ExIndexWriter(IndexWriter);

#[verifier::external_type_specification]
#[verifier::external_body]
pub struct ExSearcher(Searcher);

#[verifier::external_type_specification]
#[verifier::external_body]
pub struct ExQueryParser(QueryParser);

#[verifier::external_type_specification]
#[verifier::external_body]
pub struct ExQueryParserError(QueryParserError);

#[verifier::external_type_specification]
#[verifier::external_body]
pub struct ExSchema(Schema);

#[verifier::external_type_specification]
#[verifier::external_body]
pub struct ExSchemaBuilder(SchemaBuilder);

#[verifier::external_type_specification]
#[verifier::external_body]
pub struct ExField(Field);

#[verifier::external_type_specification]
#[verifier::external_body]
pub struct ExDocument(Document);

#[verifier::external_type_specification]
#[verifier::external_body]
pub struct ExTantivyError(TantivyError);

/// How a field is kept: searchable text, stored for reading back, or both.
#[derive(Debug, Clone, Copy)]
pub enum FieldOptions {
    TextStored,
    Text,
    Stored,
}

/// The fields that a schema builder holds, in order, with their options.
pub uninterp spec fn builder_fields(b: SchemaBuilder) -> Seq<(Seq<char>, FieldOptions)>;

/// The fields of a schema, in order, with their options.
pub uninterp spec fn schema_fields(s: Schema) -> Seq<(Seq<char>, FieldOptions)>;

/// The fields of an index's schema, in order, with their options.
pub uninterp spec fn index_fields(i: Index) -> Seq<(Seq<char>, FieldOptions)>;

/// The position of a field in its schema.
pub uninterp spec fn field_id(f: Field) -> nat;

/// The fields, by position, that a query parser searches for a bare term.
pub uninterp spec fn default_fields(p: QueryParser) -> Seq<nat>;

/// Whether a query parser accepts a query text.
pub uninterp spec fn accepts(p: QueryParser, q: Seq<char>) -> bool;

/// The documents among `docs` that the parsed query matches.
pub uninterp spec fn matching_docs(
    p: QueryParser,
    q: Seq<char>,
    docs: Multiset<Seq<Seq<char>>>,
) -> Multiset<Seq<Seq<char>>>;

/// The documents added through a writer since its last commit, in order;
/// a document is its field texts by position.
pub uninterp spec fn staged_docs(w: IndexWriter) -> Seq<Seq<Seq<char>>>;

/// The documents that the writer's next commit keeps besides the staged
/// ones: those visible, or none after a deletion of every document.
pub uninterp spec fn base_docs(w: IndexWriter) -> Multiset<Seq<Seq<char>>>;

/// The live documents of the writer's index as of its last commit.
pub uninterp spec fn visible_docs(w: IndexWriter) -> Multiset<Seq<Seq<char>>>;

/// The live documents that a searcher sees.
pub uninterp spec fn searcher_docs(s: Searcher) -> Multiset<Seq<Seq<char>>>;

/// The fields of the schema of a writer's index, in order, with their options.
pub uninterp spec fn writer_fields(w: IndexWriter) -> Seq<(Seq<char>, FieldOptions)>;

/// The fields of the schema of a searcher's index, in order, with their options.
pub uninterp spec fn searcher_fields(s: Searcher) -> Seq<(Seq<char>, FieldOptions)>;

/// Whether a field so kept is stored for reading back.
pub open spec fn is_stored(o: FieldOptions) -> bool {
    o is TextStored || o is Stored
}

/// The number of segments that a searcher reads.
pub uninterp spec fn segment_count(s: Searcher) -> nat;

/// The document at an address of a searcher.
pub uninterp spec fn doc_at(s: Searcher, segment: u32, doc: u32) -> Seq<Seq<char>>;

/// The first value of each field of a stored document, by position, where
/// that value is text.
pub uninterp spec fn doc_texts(d: Document) -> Map<nat, Seq<char>>;

/// Read as single-precision scores, the one with bits `a` is not below the
/// one with bits `b`: greater, equal, or incomparable, as `partial_cmp`
/// falling back to equality orders them.
pub uninterp spec fn not_below(a: u32, b: u32) -> bool;

/// The documents at the addresses of `hits`, in order.
pub open spec fn hit_docs(s: Searcher, hits: Seq<(u32, u32, u32)>) -> Seq<Seq<Seq<char>>> {
    hits.map_values(|h: (u32, u32, u32)| doc_at(s, h.1, h.2))
}

pub open spec fn names_of(fields: Seq<(Seq<char>, FieldOptions)>) -> Seq<Seq<char>> {
    fields.map_values(|f: (Seq<char>, FieldOptions)| f.0)
}

/// The index's fields, in order: the identifier, status and check status
/// stored; the title and files stored and searchable; the description and
/// diff searchable only.
pub open spec fn index_schema() -> Seq<(Seq<char>, FieldOptions)> {
    seq![
        ("pr_number"@, FieldOptions::Stored),
        ("title"@, FieldOptions::TextStored),
        ("description"@, FieldOptions::Text),
        ("status"@, FieldOptions::Stored),
        ("checks_status"@, FieldOptions::Stored),
        ("files"@, FieldOptions::TextStored),
        ("diff"@, FieldOptions::Text),
    ]
}

/// The position of the description field, which bare query terms search.
pub const DESCRIPTION_POSITION: u32 = 2;

/// The fields of the document of a pull request, in the order of the schema.
pub open spec fn pr_view(pr: PullRequestDetails) -> Seq<Seq<char>> {
    seq![
        decimal(pr.number as nat), pr.title@, pr.description@, pr.state@, checks_label(pr.workflows@),
        join(diff_files(pr.diff@), "\n"@), pr.diff@,
    ]
}

/// The documents of the merged pull requests among `prs`, in order.
pub open spec fn merged_views(prs: Seq<PullRequestDetails>) -> Seq<Seq<Seq<char>>> {
    prs.filter(|p: PullRequestDetails| p.merged).map_values(|p: PullRequestDetails| pr_view(p))
}

/// The fields of a document, in the order of the schema.
pub open spec fn stored_view(d: IndexDocument) -> Seq<Seq<char>> {
    seq![d.pr_number@, d.title@, d.description@, d.status@, d.checks_status@, d.files@, d.diff@]
}

/// Relies on tantivy's `Schema::builder`: a builder without fields.
#[verifier::external_body]
fn schema_builder() -> (r: SchemaBuilder)
    ensures
        builder_fields(r) == Seq::<(Seq<char>, FieldOptions)>::empty(),
{
    Schema::builder()
}

/// Relies on `SchemaBuilder::add_text_field`: the field comes after those
/// already there, at the next position. It panics on a name already there,
/// an empty name, or one that starts with '-'.
#[verifier::external_body]
fn add_text_field(b: &mut SchemaBuilder, name: &str, options: FieldOptions) -> (r: Field)
    requires
        !names_of(builder_fields(*old(b))).contains(name@),
        name@.len() > 0,
        name@[0] != '-',
    ensures
        builder_fields(*final(b)) == builder_fields(*old(b)).push((name@, options)),
        field_id(r) == builder_fields(*old(b)).len(),
{
    let options: TextOptions = match options {
        FieldOptions::TextStored => TEXT | STORED,
        FieldOptions::Text => TEXT,
        FieldOptions::Stored => STORED.into(),
    };
    b.add_text_field(name, options)
}

/// Relies on `SchemaBuilder::build`: the schema has the builder's fields.
#[verifier::external_body]
fn build_schema(b: SchemaBuilder) -> (r: Schema)
    ensures
        schema_fields(r) == builder_fields(b),
{
    b.build()
}

/// Relies on `Index::create_in_ram`: an index held in memory, with the schema.
#[verifier::external_body]
fn index_in_ram(schema: Schema) -> (r: Index)
    ensures
        index_fields(r) == schema_fields(schema),
{
    Index::create_in_ram(schema)
}

/// Relies on `Schema::get_field` of the index's schema: the one field with
/// that name (a schema holds each name once); fails exactly where there is
/// none.
#[verifier::external_body]
fn field_named(index: &Index, name: &str) -> (r: Result<Field, TantivyError>)
    ensures
        r is Err <==> !names_of(index_fields(*index)).contains(name@),
        r matches Ok(f) ==> field_id(f) < index_fields(*index).len() && index_fields(*index)[field_id(
            f,
        ) as int].0 == name@,
        r matches Ok(f) ==> forall|k: int|
            0 <= k < index_fields(*index).len() && (#[trigger] index_fields(*index)[k]).0 == name@ ==> k
                == field_id(f),
{
    index.schema().get_field(name)
}

/// Relies on `Field::field_id`.
#[verifier::external_body]
fn position_of(f: Field) -> (r: u32)
    ensures
        r == field_id(f),
{
    f.field_id()
}

/// Relies on `Index::writer`: fails where another writer holds the index
/// or the memory budget is too small; a new writer has staged nothing.
#[verifier::external_body]
fn open_writer(index: &Index, memory_budget: usize) -> (r: Result<IndexWriter, TantivyError>)
    ensures
        r matches Ok(w) ==> staged_docs(w).len() == 0 && base_docs(w) == visible_docs(w),
        r matches Ok(w) ==> writer_fields(w) == index_fields(*index),
{
    index.writer(memory_budget)
}

/// Relies on `QueryParser::for_index`, with one default field.
#[verifier::external_body]
fn parser_for(index: &Index, default_field: Field) -> (r: QueryParser)
    ensures
        default_fields(r) == seq![field_id(default_field)],
{
    QueryParser::for_index(index, vec![default_field])
}

/// Relies on `QueryParser::parse_query`: the parser's message where it
/// refuses the text. The empty text parses, to a query matching nothing.
#[verifier::external_body]
fn query_error(parser: &QueryParser, text: &str) -> (r: Option<String>)
    ensures
        r is None <==> accepts(*parser, text@),
        text@.len() == 0 ==> r is None,
        r is None && text@.len() == 0 ==> forall|docs: Multiset<Seq<Seq<char>>>|
            #[trigger] matching_docs(*parser, text@, docs).len() == 0,
{
    parser.parse_query(text).err().map(|e| e.to_string())
}

/// Relies on `IndexWriter::delete_all_documents`, which always succeeds:
/// takes effect at the next commit. (What was staged before it may or may
/// not survive.)
#[verifier::external_body]
fn delete_all(writer: &mut IndexWriter) -> (r: Result<u64, TantivyError>)
    ensures
        r is Ok,
        visible_docs(*final(writer)) == visible_docs(*old(writer)),
        base_docs(*final(writer)) == Multiset::<Seq<Seq<char>>>::empty(),
        staged_docs(*old(writer)).len() == 0 ==> staged_docs(*final(writer)).len() == 0,
        writer_fields(*final(writer)) == writer_fields(*old(writer)),
{
    writer.delete_all_documents()
}

/// The fields are at the positions of the index's schema.
spec fn in_schema_order(fields: IndexFields) -> bool {
    &&& field_id(fields.pr_number) == 0
    &&& field_id(fields.title) == 1
    &&& field_id(fields.description) == 2
    &&& field_id(fields.status) == 3
    &&& field_id(fields.checks_status) == 4
    &&& field_id(fields.files) == 5
    &&& field_id(fields.diff) == 6
}

/// Relies on `IndexWriter::add_document`, after `Document::add_text` for
/// each field: the document becomes visible at the next commit; nothing
/// visible changes before.
#[verifier::external_body]
fn add_document(writer: &mut IndexWriter, fields: &IndexFields, doc: &IndexDocument) -> (r: Result<u64, TantivyError>)
    ensures
        r is Ok && in_schema_order(*fields) ==> staged_docs(*final(writer)) == staged_docs(*old(writer)).push(
            stored_view(*doc),
        ),
        base_docs(*final(writer)) == base_docs(*old(writer)),
        visible_docs(*final(writer)) == visible_docs(*old(writer)),
        writer_fields(*final(writer)) == writer_fields(*old(writer)),
{
    let mut d = Document::default();
    d.add_text(fields.pr_number, &doc.pr_number);
    d.add_text(fields.title, &doc.title);
    d.add_text(fields.description, &doc.description);
    d.add_text(fields.status, &doc.status);
    d.add_text(fields.checks_status, &doc.checks_status);
    d.add_text(fields.files, &doc.files);
    d.add_text(fields.diff, &doc.diff);
    writer.add_document(d)
}

/// Relies on `IndexWriter::commit`: what was added or deleted before it
/// becomes visible to readers opened after it; a failed commit publishes
/// nothing.
#[verifier::external_body]
fn commit_writer(writer: &mut IndexWriter) -> (r: Result<u64, TantivyError>)
    ensures
        r is Ok ==> visible_docs(*final(writer)) == base_docs(*old(writer)).add(
            staged_docs(*old(writer)).to_multiset(),
        ),
        r is Ok ==> base_docs(*final(writer)) == visible_docs(*final(writer)),
        r is Ok ==> staged_docs(*final(writer)).len() == 0,
        r is Err ==> visible_docs(*final(writer)) == visible_docs(*old(writer)),
        writer_fields(*final(writer)) == writer_fields(*old(writer)),
{
    writer.commit()
}

/// Relies on `Index::reader` of the writer's index, then
/// `IndexReader::searcher`: a snapshot of the documents of the last commit.
#[verifier::external_body]
fn open_searcher(writer: &IndexWriter) -> (r: Result<Searcher, TantivyError>)
    ensures
        r matches Ok(s) ==> searcher_docs(s) == visible_docs(*writer),
        r matches Ok(s) ==> searcher_fields(s) == writer_fields(*writer),
{
    writer.index().reader().map(|reader| reader.searcher())
}

/// Relies on `Searcher::num_docs`: the live documents of the snapshot.
#[verifier::external_body]
fn live_docs(searcher: &Searcher) -> (r: u64)
    ensures
        r == searcher_docs(*searcher).len(),
{
    searcher.num_docs()
}

/// Relies on `QueryParser::parse_query`, then `Searcher::search` with
/// `TopDocs::with_limit` (which panics on a zero limit): as many hits as
/// match, up to `limit`, best first, at distinct addresses of the
/// searcher's segments, given as (score bits, segment, document); their
/// documents are among the matching ones. A query that matches nothing,
/// such as the empty one, gives no hit.
#[verifier::external_body]
fn top_hits(searcher: &Searcher, parser: &QueryParser, text: &str, limit: usize) -> (r: Result<
    Result<Vec<(u32, u32, u32)>, TantivyError>,
    QueryParserError,
>)
    requires
        limit > 0,
    ensures
        r is Err <==> !accepts(*parser, text@),
        r matches Ok(Ok(hits)) ==> {
            let matching = matching_docs(*parser, text@, searcher_docs(*searcher));
            &&& matching.subset_of(searcher_docs(*searcher))
            &&& hits.len() == min(limit as int, matching.len() as int)
            &&& hits.len() <= searcher_docs(*searcher).len()
            &&& text@.len() == 0 ==> hits.len() == 0
            &&& forall|k: int|
                0 <= k < hits.len() ==> (#[trigger] hits@[k]).1 < segment_count(*searcher) && matching.contains(
                    doc_at(*searcher, hits@[k].1, hits@[k].2),
                )
            &&& forall|i: int, j: int|
                0 <= i < j < hits.len() ==> not_below((#[trigger] hits@[i]).0, (#[trigger] hits@[j]).0)
                    && (hits@[i].1 != hits@[j].1 || hits@[i].2 != hits@[j].2)
            &&& hit_docs(*searcher, hits@).to_multiset().subset_of(matching)
        },
{
    let query = parser.parse_query(text)?;
    let hits = searcher.search(&query, &TopDocs::with_limit(limit));
    Ok(hits.map(|v| v.into_iter().map(|(s, a)| (s.to_bits(), a.segment_ord, a.doc_id)).collect()))
}

/// Relies on `Searcher::doc`, which panics on a segment the searcher does
/// not have: the stored values of the document at the address, among them
/// the text of every stored field that the document has.
#[verifier::external_body]
fn stored_document(searcher: &Searcher, segment: u32, doc: u32) -> (r: Result<Document, TantivyError>)
    requires
        segment < segment_count(*searcher),
    ensures
        r matches Ok(d) ==> forall|id: nat|
            #[trigger] doc_texts(d).contains_key(id) ==> id < doc_at(*searcher, segment, doc).len()
                && doc_texts(d)[id] == doc_at(*searcher, segment, doc)[id as int],
        r matches Ok(d) ==> forall|id: nat|
            id < doc_at(*searcher, segment, doc).len() && id < searcher_fields(*searcher).len() && is_stored(
                #[trigger] searcher_fields(*searcher)[id as int].1,
            ) ==> doc_texts(d).contains_key(id),
{
    searcher.doc(tantivy::DocAddress { segment_ord: segment, doc_id: doc })
}

/// Relies on `Document::get_first` and `Value::as_text`: the first value
/// of the field, where it is text.
#[verifier::external_body]
fn first_text(doc: &Document, field: Field) -> (r: Option<String>)
    ensures
        r is Some == doc_texts(*doc).contains_key(field_id(field)),
        r matches Some(t) ==> t@ == doc_texts(*doc)[field_id(field)],
{
    doc.get_first(field).and_then(|v| v.as_text()).map(String::from)
}

/// Relies on the `Display` of tantivy's errors.
#[verifier::external_body]
fn engine_message(e: &TantivyError) -> (r: String) {
    e.to_string()
}

/// Relies on the `Display` of tantivy's query parser errors.
#[verifier::external_body]
fn parse_message(e: &QueryParserError) -> (r: String) {
    e.to_string()
}

/// Why an index operation failed.
#[derive(Debug, Clone)]
pub enum IndexError {
    /// The query text is not well formed.
    Query(String),
    /// A field is missing from the index's schema or from a hit, or a hit
    /// holds an unreadable identifier: the index does not hold what this
    /// library wrote.
    Lookup(String),
    /// The engine failed to open, write, commit or read.
    Engine(String),
}

/// The fields of the index, by role.
pub struct IndexFields {
    pr_number: Field,
    title: Field,
    description: Field,
    status: Field,
    checks_status: Field,
    files: Field,
    diff: Field,
}

/// How large a buffer the writer may fill before it flushes.
pub const WRITER_MEMORY_BUDGET: usize = 50_000_000;

fn engine_error(e: TantivyError) -> (r: IndexError)
    ensures
        r is Engine,
{
    IndexError::Engine(engine_message(&e))
}

/// The field called `name`, which must stand at `position` of the schema.
fn lookup_field(index: &Index, name: &str, position: u32) -> (r: Result<Field, IndexError>)
    ensures
        r is Ok <==> named_at(index_fields(*index), name@, position as int),
        r matches Ok(f) ==> field_id(f) == position,
        r matches Err(e) ==> e is Lookup,
{
    match field_named(index, name) {
        Ok(f) => {
            if position_of(f) == position {
                Ok(f)
            } else {
                proof {
                    let fs = index_fields(*index);
                    if named_at(fs, name@, position as int) {
                        assert(fs[field_id(f) as int].0 == name@);
                    }
                }
                let mut message = String::from_str(name);
                message.append(" is not where the schema puts it");
                Err(IndexError::Lookup(message))
            }
        },
        Err(e) => {
            proof {
                let fs = index_fields(*index);
                if named_at(fs, name@, position as int) {
                    assert(names_of(fs)[position as int] == name@);
                }
            }
            Err(IndexError::Lookup(engine_message(&e)))
        },
    }
}

/// `fields` has `name` at `position` and nowhere else.
pub open spec fn named_at(fields: Seq<(Seq<char>, FieldOptions)>, name: Seq<char>, position: int) -> bool {
    &&& 0 <= position < fields.len()
    &&& fields[position].0 == name
    &&& forall|k: int| 0 <= k < fields.len() && (#[trigger] fields[k]).0 == name ==> k == position
}

/// `fields` has each field of `index_schema` at its position, and its name
/// nowhere else.
pub open spec fn schema_found(fields: Seq<(Seq<char>, FieldOptions)>) -> bool {
    &&& named_at(fields, "pr_number"@, 0)
    &&& named_at(fields, "title"@, 1)
    &&& named_at(fields, "description"@, 2)
    &&& named_at(fields, "status"@, 3)
    &&& named_at(fields, "checks_status"@, 4)
    &&& named_at(fields, "files"@, 5)
    &&& named_at(fields, "diff"@, 6)
}

/// The index's own schema has each of its fields under a name of its own.
pub proof fn lemma_index_schema_found()
    ensures
        schema_found(index_schema()),
{
    reveal_strlit("pr_number");
    reveal_strlit("title");
    reveal_strlit("description");
    reveal_strlit("status");
    reveal_strlit("checks_status");
    reveal_strlit("files");
    reveal_strlit("diff");
    assert("pr_number"@.len() == 9);
    assert("title"@.len() == 5);
    assert("description"@.len() == 11);
    assert("status"@.len() == 6);
    assert("checks_status"@.len() == 13);
    assert("files"@.len() == 5);
    assert("diff"@.len() == 4);
    assert("title"@[0] != "files"@[0]);
    let fs = index_schema();
    assert(fs.len() == 7);
    assert(fs[0].0 == "pr_number"@ && fs[1].0 == "title"@ && fs[2].0 == "description"@ && fs[3].0
        == "status"@ && fs[4].0 == "checks_status"@ && fs[5].0 == "files"@ && fs[6].0 == "diff"@);
}

/// Whether a load must fetch pull requests: on a forced refresh, or where
/// the index has no visible document.
pub fn should_load(force_refresh: bool, visible_docs: u64) -> (r: bool)
    ensures
        r == (force_refresh || visible_docs == 0),
{
    force_refresh || visible_docs == 0
}

/// What a commit publishes counts the kept documents and the staged ones:
/// documents ingested without a commit add nothing visible (the contracts
/// of `index_pr` and `commit`), and after a commit an index that showed
/// `kept` documents shows `kept.len() + staged.len()`, so no search returns
/// more hits than that.
pub proof fn lemma_commit_counts(kept: Multiset<Seq<Seq<char>>>, staged: Seq<Seq<Seq<char>>>)
    ensures
        kept.add(staged.to_multiset()).len() == kept.len() + staged.len(),
{
    vstd::seq_lib::to_multiset_len(staged);
}

/// The entry `res` was read from the stored fields of document `d`.
pub open spec fn result_of(res: SearchResult, d: Seq<Seq<char>>) -> bool {
    &&& d.len() > 5
    &&& parsed_u64(d[0]) == Some(res.pr_number as nat)
    &&& res.title@ == d[1]
    &&& res.status@ == d[3]
    &&& res.checks_status@ == d[4]
    &&& strs(res.files@) == stored_files(d[5])
}

/// Nothing read from no source is read from a sub-multiset of any `docs`.
proof fn lemma_no_sources(docs: Multiset<Seq<Seq<char>>>)
    ensures
        exists|sources: Seq<Seq<Seq<char>>>| sources.len() == 0 && sources.to_multiset().subset_of(docs),
{
    let none = Seq::<Seq<Seq<char>>>::empty();
    none.to_multiset_ensures();
    vstd::multiset::lemma_multiset_empty_len(none.to_multiset());
    assert(none.to_multiset().subset_of(docs));
}

/// The entry `res` was read from one of `docs` that is also among `visible`.
pub open spec fn read_from(res: SearchResult, visible: Multiset<Seq<Seq<char>>>, docs: Multiset<Seq<Seq<char>>>) -> bool {
    exists|d: Seq<Seq<char>>| visible.contains(d) && docs.contains(d) && result_of(res, d)
}

/// An entry read from the document of a pull request gives back its
/// number, title, state, aggregate check status and touched files (but for
/// a diff whose only file path is empty).
pub proof fn lemma_result_of_pull_request(res: SearchResult, pr: PullRequestDetails)
    requires
        result_of(res, pr_view(pr)),
        diff_files(pr.diff@) != seq![Seq::<char>::empty()],
    ensures
        res.pr_number == pr.number,
        res.title@ == pr.title@,
        res.status@ == pr.state@,
        res.checks_status@ == checks_label(pr.workflows@),
        strs(res.files@) == diff_files(pr.diff@),
{
    lemma_decimal_round_trip(pr.number as nat);
    lemma_join_lines_round_trip(diff_files(pr.diff@), pr.diff@);
}

/// An index with its fields found at their positions and a parser that
/// searches the description.
struct IndexLayout {
    index: Index,
    query_parser: QueryParser,
    fields: IndexFields,
}

impl IndexLayout {
    #[verifier::type_invariant]
    spec fn well_formed(self) -> bool {
        &&& in_schema_order(self.fields)
        &&& default_fields(self.query_parser) == seq![DESCRIPTION_POSITION as nat]
        &&& index_fields(self.index).len() >= 7
        &&& names_of(index_fields(self.index)).take(7) == names_of(index_schema())
    }
}

/// A free-text index over merged pull requests.
pub struct PRSearchIndex {
    layout: IndexLayout,
    writer: IndexWriter,
}

impl PRSearchIndex {

    /// The index's schema: see `index_schema`.
    pub fn schema() -> (r: Schema)
        ensures
            schema_fields(r) == index_schema(),
    {
        let mut b = schema_builder();
        proof {
            reveal_strlit("pr_number");
            reveal_strlit("title");
            reveal_strlit("description");
            reveal_strlit("status");
            reveal_strlit("checks_status");
            reveal_strlit("files");
            reveal_strlit("diff");
            assert("pr_number"@.len() == 9);
            assert("title"@.len() == 5);
            assert("description"@.len() == 11);
            assert("status"@.len() == 6);
            assert("checks_status"@.len() == 13);
            assert("files"@.len() == 5);
            assert("diff"@.len() == 4);
            assert("title"@[0] != "files"@[0]);
        }
        add_text_field(&mut b, "pr_number", FieldOptions::Stored);
        assert(!names_of(builder_fields(b)).contains("title"@)) by {
            assert(names_of(builder_fields(b))[0] != "title"@);
        }
        add_text_field(&mut b, "title", FieldOptions::TextStored);
        assert(!names_of(builder_fields(b)).contains("description"@)) by {
            assert(names_of(builder_fields(b))[0] != "description"@);
            assert(names_of(builder_fields(b))[1] != "description"@);
        }
        add_text_field(&mut b, "description", FieldOptions::Text);
        assert(!names_of(builder_fields(b)).contains("status"@)) by {
            assert(names_of(builder_fields(b))[0] != "status"@);
            assert(names_of(builder_fields(b))[1] != "status"@);
            assert(names_of(builder_fields(b))[2] != "status"@);
        }
        add_text_field(&mut b, "status", FieldOptions::Stored);
        assert(!names_of(builder_fields(b)).contains("checks_status"@)) by {
            assert(names_of(builder_fields(b))[0] != "checks_status"@);
            assert(names_of(builder_fields(b))[1] != "checks_status"@);
            assert(names_of(builder_fields(b))[2] != "checks_status"@);
            assert(names_of(builder_fields(b))[3] != "checks_status"@);
        }
        add_text_field(&mut b, "checks_status", FieldOptions::Stored);
        assert(!names_of(builder_fields(b)).contains("files"@)) by {
            assert(names_of(builder_fields(b))[0] != "files"@);
            assert(names_of(builder_fields(b))[1] != "files"@);
            assert(names_of(builder_fields(b))[2] != "files"@);
            assert(names_of(builder_fields(b))[3] != "files"@);
            assert(names_of(builder_fields(b))[4] != "files"@);
        }
        add_text_field(&mut b, "files", FieldOptions::TextStored);
        assert(!names_of(builder_fields(b)).contains("diff"@)) by {
            assert(names_of(builder_fields(b))[0] != "diff"@);
            assert(names_of(builder_fields(b))[1] != "diff"@);
            assert(names_of(builder_fields(b))[2] != "diff"@);
            assert(names_of(builder_fields(b))[3] != "diff"@);
            assert(names_of(builder_fields(b))[4] != "diff"@);
            assert(names_of(builder_fields(b))[5] != "diff"@);
        }
        add_text_field(&mut b, "diff", FieldOptions::Text);
        assert(builder_fields(b) =~= index_schema());
        build_schema(b)
    }

    /// Opens a writer and a query parser over `index`. The fields are looked
    /// up by name and must stand where `index_schema` puts them (a lookup
    /// error otherwise); bare query terms search the description.
    pub fn from_index(index: Index) -> (r: Result<PRSearchIndex, IndexError>)
        ensures
            r matches Ok(ix) ==> ix.staged().len() == 0 && ix.base() == ix.visible(),
            r matches Ok(ix) ==> ix.fields_of() == index_fields(index) && ix.bare_terms_search_description(),
            r matches Ok(ix) ==> (ix.stores_its_fields() <==> index_fields(index).take(7) == index_schema()),
            r matches Err(IndexError::Lookup(_)) <==> !schema_found(index_fields(index)),
            r matches Err(e) ==> e is Lookup || e is Engine,
    {
        let pr_number = lookup_field(&index, "pr_number", 0)?;
        let title = lookup_field(&index, "title", 1)?;
        let description = lookup_field(&index, "description", DESCRIPTION_POSITION)?;
        let status = lookup_field(&index, "status", 3)?;
        let checks_status = lookup_field(&index, "checks_status", 4)?;
        let files = lookup_field(&index, "files", 5)?;
        let diff = lookup_field(&index, "diff", 6)?;
        let fields = IndexFields { pr_number, title, description, status, checks_status, files, diff };
        let writer = match open_writer(&index, WRITER_MEMORY_BUDGET) {
            Ok(w) => w,
            Err(e) => return Err(engine_error(e)),
        };
        let query_parser = parser_for(&index, fields.description);
        proof {
            let fs = index_fields(index);
            assert(fs[0].0 == "pr_number"@ && fs[1].0 == "title"@ && fs[2].0 == "description"@ && fs[3].0
                == "status"@ && fs[4].0 == "checks_status"@ && fs[5].0 == "files"@ && fs[6].0 == "diff"@);
            assert(names_of(fs).take(7) =~= names_of(index_schema()));
        }
        Ok(PRSearchIndex { layout: IndexLayout { index, query_parser, fields }, writer })
    }

    /// An empty index held in memory, with the schema `index_schema`.
    pub fn in_memory() -> (r: Result<PRSearchIndex, IndexError>)
        ensures
            r matches Ok(ix) ==> ix.staged().len() == 0 && ix.base() == ix.visible(),
            r matches Ok(ix) ==> ix.fields_of() == index_schema() && ix.bare_terms_search_description(),
            r matches Ok(ix) ==> ix.stores_its_fields(),
            r matches Err(e) ==> e is Engine,
    {
        proof {
            lemma_index_schema_found();
        }
        let r = PRSearchIndex::from_index(index_in_ram(PRSearchIndex::schema()));
        assert(index_schema().take(7) =~= index_schema());
        r
    }

    /// The fields of the index's schema, with their options.
    pub closed spec fn fields_of(&self) -> Seq<(Seq<char>, FieldOptions)> {
        index_fields(self.layout.index)
    }

    /// The writer writes to this index, whose first seven fields are those
    /// of `index_schema`, options included.
    pub closed spec fn stores_its_fields(&self) -> bool {
        &&& writer_fields(self.writer) == index_fields(self.layout.index)
        &&& index_fields(self.layout.index).len() >= 7
        &&& index_fields(self.layout.index).take(7) == index_schema()
    }

    /// Bare query terms search the description field, and only it.
    pub closed spec fn bare_terms_search_description(&self) -> bool {
        default_fields(self.layout.query_parser) == seq![DESCRIPTION_POSITION as nat]
            && self.fields_of()[DESCRIPTION_POSITION as int].0 == "description"@
    }

    /// Whether the index's query parser accepts `query`.
    pub closed spec fn accepts(&self, query: Seq<char>) -> bool {
        accepts(self.layout.query_parser, query)
    }

    /// The visible documents that `query` matches.
    pub closed spec fn matching(&self, query: Seq<char>) -> Multiset<Seq<Seq<char>>> {
        matching_docs(self.layout.query_parser, query, self.visible())
    }

    /// The documents visible to queries, each its field texts by position.
    pub closed spec fn visible(&self) -> Multiset<Seq<Seq<char>>> {
        visible_docs(self.writer)
    }

    /// The documents added since the last commit, in order.
    pub closed spec fn staged(&self) -> Seq<Seq<Seq<char>>> {
        staged_docs(self.writer)
    }

    /// The documents that the next commit keeps besides the staged ones.
    pub closed spec fn base(&self) -> Multiset<Seq<Seq<char>>> {
        base_docs(self.writer)
    }

    fn snapshot(&self) -> (r: Result<Searcher, IndexError>)
        ensures
            r matches Ok(s) ==> searcher_docs(s) == self.visible(),
            r matches Ok(s) ==> searcher_fields(s) == writer_fields(self.writer),
            r matches Err(e) ==> e is Engine,
    {
        match open_searcher(&self.writer) {
            Ok(s) => Ok(s),
            Err(e) => Err(engine_error(e)),
        }
    }

    /// The number of documents visible to queries.
    pub fn visible_count(&self) -> (r: Result<u64, IndexError>)
        ensures
            r matches Ok(n) ==> n == self.visible().len(),
            r matches Err(e) ==> e is Engine,
    {
        let searcher = self.snapshot()?;
        Ok(live_docs(&searcher))
    }

    /// Whether no document is visible to queries.
    pub fn is_empty(&self) -> (r: Result<bool, IndexError>)
        ensures
            r matches Ok(b) ==> b == (self.visible().len() == 0),
            r matches Err(e) ==> e is Engine,
    {
        let n = self.visible_count()?;
        Ok(n == 0)
    }

    /// Starts a load: on a forced refresh, deletes every document (at the
    /// next commit) and asks for a load; otherwise asks for one only where
    /// no document is visible. Nothing visible changes here.
    pub fn prepare_load(&mut self, force_refresh: bool) -> (r: Result<bool, IndexError>)
        ensures
            final(self).stores_its_fields() == old(self).stores_its_fields(),
            final(self).visible() == old(self).visible(),
            force_refresh ==> (r matches Ok(load) && load),
            r matches Ok(load) ==> load == (force_refresh || old(self).visible().len() == 0),
            force_refresh ==> final(self).base() == Multiset::<Seq<Seq<char>>>::empty(),
            !force_refresh ==> final(self).base() == old(self).base() && final(self).staged() == old(
                self,
            ).staged(),
            old(self).staged().len() == 0 ==> final(self).staged().len() == 0,
            r matches Err(e) ==> e is Engine,
    {
        if force_refresh {
            let _ = delete_all(&mut self.writer);
            return Ok(true);
        }
        let visible = self.visible_count()?;
        Ok(should_load(force_refresh, visible))
    }

    /// Adds the document of `pr`; it becomes visible at the next commit.
    pub fn index_pr(&mut self, pr: &PullRequestDetails) -> (r: Result<(), IndexError>)
        ensures
            final(self).stores_its_fields() == old(self).stores_its_fields(),
            r is Ok ==> final(self).staged() == old(self).staged().push(pr_view(*pr)),
            final(self).visible() == old(self).visible(),
            final(self).base() == old(self).base(),
            r matches Err(e) ==> e is Engine,
    {
        proof {
            use_type_invariant(&self.layout);
        }
        let doc = IndexDocument::from_details(pr);
        assert(stored_view(doc) =~= pr_view(*pr));
        match add_document(&mut self.writer, &self.layout.fields, &doc) {
            Ok(_) => Ok(()),
            Err(e) => Err(engine_error(e)),
        }
    }

    /// Makes every added document visible to queries opened afterwards; a
    /// failed commit makes nothing visible.
    pub fn commit(&mut self) -> (r: Result<(), IndexError>)
        ensures
            final(self).stores_its_fields() == old(self).stores_its_fields(),
            r is Ok ==> final(self).visible() == old(self).base().add(old(self).staged().to_multiset()),
            r is Ok ==> final(self).base() == final(self).visible(),
            r is Ok ==> final(self).staged().len() == 0,
            r is Err ==> final(self).visible() == old(self).visible(),
            r matches Err(e) ==> e is Engine,
    {
        match commit_writer(&mut self.writer) {
            Ok(_) => Ok(()),
            Err(e) => Err(engine_error(e)),
        }
    }

    /// Adds the merged pull requests among `details`, in order, and commits.
    /// Returns how many were added. Where it fails, nothing new is visible.
    pub fn load_details(&mut self, details: &Vec<PullRequestDetails>) -> (r: Result<usize, IndexError>)
        ensures
            final(self).stores_its_fields() == old(self).stores_its_fields(),
            r matches Ok(n) ==> n == merged_views(details@).len(),
            r is Ok ==> final(self).visible() == old(self).base().add(
                (old(self).staged() + merged_views(details@)).to_multiset(),
            ),
            r is Ok ==> final(self).staged().len() == 0,
            r is Err ==> final(self).visible() == old(self).visible(),
            r matches Err(e) ==> e is Engine,
    {
        let ghost merged = |p: PullRequestDetails| p.merged;
        let ghost view = |p: PullRequestDetails| pr_view(p);
        let mut added: usize = 0;
        let mut k: usize = 0;
        while k < details.len()
            invariant
                k <= details.len(),
                merged == (|p: PullRequestDetails| p.merged),
                view == (|p: PullRequestDetails| pr_view(p)),
                added == details@.take(k as int).filter(merged).len(),
                added <= k,
                self.base() == old(self).base(),
                self.visible() == old(self).visible(),
                self.stores_its_fields() == old(self).stores_its_fields(),
                self.staged() == old(self).staged() + details@.take(k as int).filter(merged).map_values(view),
            decreases details.len() - k,
        {
            proof {
                assert(details@.take(k + 1) =~= details@.take(k as int).push(details@[k as int]));
                details@.take(k as int).lemma_filter_push(details@[k as int], merged);
            }
            if details[k].merged {
                self.index_pr(&details[k])?;
                added = added + 1;
                assert(details@.take(k + 1).filter(merged).map_values(view) =~= details@.take(k as int).filter(
                    merged,
                ).map_values(view).push(pr_view(details@[k as int])));
            }
            k = k + 1;
        }
        assert(details@.take(k as int) =~= details@);
        assert(details@.filter(merged).map_values(view) =~= merged_views(details@));
        self.commit()?;
        Ok(added)
    }

    fn stored_field(doc: &Document, field: Field, name: &str) -> (r: Result<String, IndexError>)
        ensures
            r is Ok <==> doc_texts(*doc).contains_key(field_id(field)),
            r matches Ok(t) ==> t@ == doc_texts(*doc)[field_id(field)],
            r matches Err(e) ==> e is Lookup,
    {
        match first_text(doc, field) {
            Some(t) => Ok(t),
            None => {
                let mut message = String::from_str(name);
                message.append(" not found");
                Err(IndexError::Lookup(message))
            },
        }
    }

    /// The visible documents best matching `query` over the description, as
    /// many as match up to `limit`, best first, each read back from its
    /// stored fields. A query that does not parse is a query error; where a
    /// hit lacks a stored field or holds no readable identifier, a lookup
    /// error; where the engine fails, an engine error.
    pub fn search(&self, query: &str, limit: usize) -> (r: Result<Vec<SearchResult>, IndexError>)
        ensures
            r matches Err(IndexError::Query(_)) <==> !self.accepts(query@),
            query@.len() == 0 ==> self.accepts(query@),
            self.accepts(query@) && (limit == 0 || query@.len() == 0) ==> (r matches Ok(v) && v.len() == 0),
            r matches Ok(v) ==> v.len() == min(limit as int, self.matching(query@).len() as int),
            r matches Ok(v) ==> (query@.len() == 0 ==> v.len() == 0),
            r matches Ok(v) ==> v.len() <= self.visible().len(),
            r matches Ok(v) ==> forall|i: int|
                0 <= i < v.len() ==> read_from(#[trigger] v@[i], self.visible(), self.matching(query@)),
            r matches Ok(v) ==> exists|sources: Seq<Seq<Seq<char>>>|
                sources.len() == v.len() && sources.to_multiset().subset_of(self.matching(query@)) && forall|i: int|
                    0 <= i < v.len() ==> result_of(#[trigger] v@[i], sources[i]),
            r matches Ok(v) ==> forall|i: int, j: int|
                0 <= i < j < v.len() ==> not_below((#[trigger] v@[i]).score_bits, (#[trigger] v@[j]).score_bits),
            self.stores_its_fields() && (r matches Err(IndexError::Lookup(_))) ==> exists|d: Seq<Seq<char>>|
                self.matching(query@).contains(d) && !(d.len() > 5 && parsed_u64(d[0]) is Some),
    {
        proof {
            use_type_invariant(&self.layout);
        }
        match query_error(&self.layout.query_parser, query) {
            Some(message) => return Err(IndexError::Query(message)),
            None => {},
        }
        if limit == 0 || query.is_empty() {
            proof {
                lemma_no_sources(self.matching(query@));
            }
            return Ok(Vec::new());
        }
        let searcher = self.snapshot()?;
        let hits = match top_hits(&searcher, &self.layout.query_parser, query, limit) {
            Err(e) => return Err(IndexError::Query(parse_message(&e))),
            Ok(Err(e)) => return Err(engine_error(e)),
            Ok(Ok(hits)) => hits,
        };
        let ghost matching = matching_docs(self.layout.query_parser, query@, searcher_docs(searcher));
        let mut results: Vec<SearchResult> = Vec::new();
        let ghost sources = hit_docs(searcher, hits@);
        let mut k: usize = 0;
        while k < hits.len()
            invariant
                k <= hits.len(),
                in_schema_order(self.layout.fields),
                limit > 0,
                searcher_fields(searcher) == writer_fields(self.writer),
                self.accepts(query@),
                matching == self.matching(query@),
                matching.subset_of(self.visible()),
                hits.len() == min(limit as int, matching.len() as int),
                hits.len() <= self.visible().len(),
                query@.len() == 0 ==> hits.len() == 0,
                forall|j: int|
                    0 <= j < hits.len() ==> (#[trigger] hits@[j]).1 < segment_count(searcher) && matching.contains(
                        doc_at(searcher, hits@[j].1, hits@[j].2),
                    ),
                results.len() == k,
                sources == hit_docs(searcher, hits@),
                sources.to_multiset().subset_of(matching),
                forall|i: int, j: int|
                    0 <= i < j < hits.len() ==> not_below((#[trigger] hits@[i]).0, (#[trigger] hits@[j]).0),
                forall|j: int|
                    0 <= j < k ==> self.visible().contains(#[trigger] sources[j]) && matching.contains(sources[j])
                        && result_of(results@[j], sources[j]) && results@[j].score_bits == hits@[j].0,
            decreases hits.len() - k,
        {
            let (score_bits, segment, doc_id) = hits[k];
            let doc = match stored_document(&searcher, segment, doc_id) {
                Ok(d) => d,
                Err(e) => return Err(engine_error(e)),
            };
            let ghost d = doc_at(searcher, segment, doc_id);
            proof {
                if self.stores_its_fields() {
                    let fs = searcher_fields(searcher);
                    assert(fs.take(7) == index_schema());
                    assert(fs[0] == index_schema()[0] && fs[1] == index_schema()[1] && fs[3] == index_schema()[3]
                        && fs[4] == index_schema()[4] && fs[5] == index_schema()[5]);
                    assert(is_stored(fs[0].1) && is_stored(fs[1].1) && is_stored(fs[3].1) && is_stored(fs[4].1)
                        && is_stored(fs[5].1));
                }
                assert(matching.contains(d));
            }
            let pr_number = Self::stored_field(&doc, self.layout.fields.pr_number, "pr_number")?;
            let title = Self::stored_field(&doc, self.layout.fields.title, "title")?;
            let status = Self::stored_field(&doc, self.layout.fields.status, "status")?;
            let checks_status = Self::stored_field(&doc, self.layout.fields.checks_status, "checks_status")?;
            let files = Self::stored_field(&doc, self.layout.fields.files, "files")?;
            proof {
                assert(doc_texts(doc).contains_key(5nat));
                assert(doc_texts(doc).contains_key(0nat));
            }
            match SearchResult::from_stored(&pr_number, title, status, checks_status, &files, score_bits) {
                Some(result) => {
                    assert(result_of(result, d));
                    assert(self.visible().contains(d));
                    results.push(result);
                    assert(sources[k as int] == d);
                },
                None => {
                    let mut message = String::from_str("pr_number is not a number: ");
                    message.append(pr_number.as_str());
                    return Err(IndexError::Lookup(message));
                },
            }
            k = k + 1;
        }
        assert(results.len() == min(limit as int, self.matching(query@).len() as int));
        assert forall|i: int, j: int| 0 <= i < j < results.len() implies not_below(
            (#[trigger] results@[i]).score_bits,
            (#[trigger] results@[j]).score_bits,
        ) by {
            assert(self.visible().contains(sources[i]));
            assert(self.visible().contains(sources[j]));
            assert(not_below(hits@[i].0, hits@[j].0));
        }
        assert(sources.len() == results.len());
        assert forall|i: int| 0 <= i < results.len() implies read_from(
            #[trigger] results@[i],
            self.visible(),
            self.matching(query@),
        ) by {
            assert(result_of(results@[i], sources[i]));
        }
        Ok(results)
    }
}

} // verus!
