use vstd::prelude::*;
use vstd::string::StringExecFns;
use crate::error::PdfError;
use crate::model::{empty_graph, ids_bounded, Graph, Node, ObjectId};
use crate::names::{split_file_name, split_name};
use crate::order::{ascending, lemma_ascending, sort_ids};
use crate::reach::{closed, lemma_pruned_bounded, pruned};
use crate::store::{
    bookmark_count, clear_bookmarks, graph, into_objects, lists, max_id, new_document,
    object_count, page_ids, page_walk, prune, renumber, renumbered, save_document, saved,
    set_max_id, set_object,
};
use crate::tree::{
    all_resolve, lemma_rebuilt_closed, lemma_rebuilt_page_list, lemma_rebuilt_parents,
    lemma_retained_all, page_list, rebuild, rebuilt, retained,
};
use lopdf::{Document, Object};

verus! {

/// A file to be written: its name and its bytes.
#[derive(Debug)]
pub struct OutputFile {
    pub name: String,
    pub data: Vec<u8>,
}

/// The pages of a document in the order in which this library numbers them:
/// the pages of its page tree, by ascending identifier. Page `n` is the
/// entry `n - 1`.
pub open spec fn page_order(g: Graph) -> Seq<ObjectId> {
    ascending(page_walk(g))
}

/// The counter leaves room for the two identifiers of a rebuild and for the
/// two that saving may take.
pub open spec fn roomy(g: Graph) -> bool {
    g.max_id <= u32::MAX - 4
}

/// The bound of a page range that is at fault, if one is: the first of
/// a start of zero, an end beyond the last page, and a start beyond the end.
pub open spec fn range_fault(pages: nat, start: u32, end: u32) -> Option<u32> {
    if start == 0 {
        Some(start)
    } else if end > pages {
        Some(end)
    } else if start > end {
        Some(start)
    } else {
        None
    }
}

/// The pages `start` to `end` of `g`.
pub open spec fn page_range(g: Graph, start: u32, end: u32) -> Seq<ObjectId> {
    page_order(g).subrange(start - 1, end as int)
}

/// The document that holds the pages `start` to `end` of `g` and nothing
/// that they do not need.
pub open spec fn split_graph(g: Graph, start: u32, end: u32) -> Graph {
    pruned(rebuilt(g, page_range(g, start, end)))
}

/// The message of the error for a document whose identifiers are used up.
pub open spec fn exhausted_text() -> Seq<char> {
    "Object identifiers exhausted"@
}

pub(crate) fn exhausted() -> (e: PdfError)
    ensures
        e matches PdfError::Operation(text) && text@ == exhausted_text(),
{
    PdfError::Operation(String::from_str("Object identifiers exhausted"))
}

/// The number of pages of a document, as `Document::get_pages` counts them,
/// cut to 32 bits.
pub fn get_page_count(doc: &Document) -> (count: u32)
    ensures
        count == page_walk(graph(*doc)).len() as u32,
{
    let pages = page_ids(doc);
    #[verifier::truncate]
    (pages.len() as u32)
}

/// Keeps the pages `start_page` to `end_page` of a document, numbered from
/// one, both included. A range at fault is refused with the bound at fault;
/// a document without room for two more identifiers is refused too.
pub fn split_document(doc: Document, start_page: u32, end_page: u32) -> (r: Result<
    Document,
    PdfError,
>)
    ensures
        match r {
            Ok(out) => range_fault(page_order(graph(doc)).len(), start_page, end_page) is None
                && roomy(graph(doc)) && graph(out) == split_graph(
                graph(doc),
                start_page,
                end_page,
            ) && page_list(graph(out)) == Some(
                retained(graph(doc), page_range(graph(doc), start_page, end_page)),
            ) && (ids_bounded(graph(doc)) ==> ids_bounded(graph(out))),
            Err(PdfError::InvalidPage(n)) => range_fault(
                page_order(graph(doc)).len(),
                start_page,
                end_page,
            ) == Some(n),
            Err(PdfError::Operation(text)) => range_fault(
                page_order(graph(doc)).len(),
                start_page,
                end_page,
            ) is None && !roomy(graph(doc)) && text@ == exhausted_text(),
            Err(_) => false,
        },
{
    let mut doc = doc;
    let pages = sort_ids(&page_ids(&doc));
    if start_page == 0 {
        return Err(PdfError::InvalidPage(start_page));
    }
    if end_page as usize > pages.len() {
        return Err(PdfError::InvalidPage(end_page));
    }
    if start_page > end_page {
        return Err(PdfError::InvalidPage(start_page));
    }
    if max_id(&doc) > u32::MAX - 4 {
        return Err(exhausted());
    }
    let mut targets: Vec<ObjectId> = Vec::new();
    let mut at: usize = (start_page - 1) as usize;
    while at < end_page as usize
        invariant
            1 <= start_page,
            start_page - 1 <= at <= end_page <= pages.len(),
            targets@ == pages@.subrange(start_page - 1, at as int),
        decreases end_page - at,
    {
        targets.push(pages[at]);
        proof {
            assert(pages@.subrange(start_page - 1, at + 1) =~= pages@.subrange(
                start_page - 1,
                at as int,
            ).push(pages@[at as int]));
        }
        at += 1;
    }
    proof {
        lemma_rebuilt_page_list(graph(doc), targets@);
        if ids_bounded(graph(doc)) {
            lemma_rebuilt_parents(graph(doc), targets@);
            lemma_pruned_bounded(rebuilt(graph(doc), targets@));
        }
    }
    rebuild(&mut doc, &targets);
    prune(&mut doc);
    Ok(doc)
}

/// Splits the pages `start_page` to `end_page` out of a document and
/// writes the result out. On success there is one file, named after the
/// prefix and the range, that holds the bytes of the split document.
pub fn split_pdf(doc: Document, output_prefix: &str, start_page: u32, end_page: u32) -> (r: Result<
    Vec<OutputFile>,
    PdfError,
>)
    ensures
        match range_fault(page_order(graph(doc)).len(), start_page, end_page) {
            Some(n) => r matches Err(PdfError::InvalidPage(m)) && m == n,
            None => if !roomy(graph(doc)) {
                r matches Err(PdfError::Operation(text)) && text@ == exhausted_text()
            } else {
                match saved(split_graph(graph(doc), start_page, end_page)) {
                    Some(data) => r matches Ok(files) && files@.len() == 1 && files@[0].name@
                        == split_name(output_prefix@, start_page, end_page) && files@[0].data@
                        == data,
                    None => r matches Err(PdfError::Io(_)),
                }
            },
        },
{
    let out = match split_document(doc, start_page, end_page) {
        Ok(out) => out,
        Err(e) => {
            return Err(e);
        },
    };
    let data = match save_document(out) {
        Ok(data) => data,
        Err(e) => {
            return Err(PdfError::Io(e));
        },
    };
    let mut files: Vec<OutputFile> = Vec::new();
    files.push(OutputFile { name: split_file_name(output_prefix, start_page, end_page), data });
    Ok(files)
}

/// The pages that a list of page numbers selects, in the order of the list
/// and as often as the list names them. A number that is zero or beyond the
/// last page selects nothing.
pub open spec fn selected(pages: Seq<ObjectId>, numbers: Seq<u32>) -> Seq<ObjectId>
    decreases numbers.len(),
{
    if numbers.len() == 0 {
        Seq::empty()
    } else {
        let before = selected(pages, numbers.drop_last());
        let n = numbers.last();
        if 1 <= n <= pages.len() {
            before.push(pages[n - 1])
        } else {
            before
        }
    }
}

/// The document that holds the pages of `g` that `numbers` selects.
pub open spec fn reorder_graph(g: Graph, numbers: Seq<u32>) -> Graph {
    pruned(rebuilt(g, selected(page_order(g), numbers)))
}

/// The message of the error for a selection that holds no page.
pub open spec fn nothing_selected_text() -> Seq<char> {
    "No valid pages selected"@
}

/// Puts the pages of a document in the order of `page_order`, a list of
/// page numbers from one. A page may be named more than once, and then
/// stands at each of its places; a number outside the document is passed
/// over. A selection without a page is refused, and so is a document without
/// room for two more identifiers.
pub fn reorder_document(doc: Document, page_order: &Vec<u32>) -> (r: Result<Document, PdfError>)
    ensures
        match r {
            Ok(out) => selected(self::page_order(graph(doc)), page_order@).len() > 0 && roomy(
                graph(doc),
            ) && graph(out) == reorder_graph(graph(doc), page_order@) && page_list(graph(out))
                == Some(retained(graph(doc), selected(self::page_order(graph(doc)), page_order@)))
                && (ids_bounded(graph(doc)) ==> ids_bounded(graph(out))),
            Err(PdfError::Operation(text)) => if selected(
                self::page_order(graph(doc)),
                page_order@,
            ).len() == 0 {
                text@ == nothing_selected_text()
            } else {
                !roomy(graph(doc)) && text@ == exhausted_text()
            },
            Err(_) => false,
        },
{
    let mut doc = doc;
    let pages = sort_ids(&page_ids(&doc));
    let mut targets: Vec<ObjectId> = Vec::new();
    let mut i: usize = 0;
    while i < page_order.len()
        invariant
            0 <= i <= page_order.len(),
            targets@ == selected(pages@, page_order@.take(i as int)),
        decreases page_order.len() - i,
    {
        let n = page_order[i];
        proof {
            assert(page_order@.take(i + 1).drop_last() =~= page_order@.take(i as int));
        }
        if n >= 1 && n as usize <= pages.len() {
            targets.push(pages[(n - 1) as usize]);
        }
        i += 1;
    }
    proof {
        assert(page_order@.take(page_order.len() as int) =~= page_order@);
    }
    if targets.len() == 0 {
        return Err(PdfError::Operation(String::from_str("No valid pages selected")));
    }
    if max_id(&doc) > u32::MAX - 4 {
        return Err(exhausted());
    }
    proof {
        lemma_rebuilt_page_list(graph(doc), targets@);
        if ids_bounded(graph(doc)) {
            lemma_rebuilt_parents(graph(doc), targets@);
            lemma_pruned_bounded(rebuilt(graph(doc), targets@));
        }
    }
    rebuild(&mut doc, &targets);
    prune(&mut doc);
    Ok(doc)
}

/// Reorders the pages of a document and returns the bytes of the new
/// document.
pub fn reorder_pages(doc: Document, page_order: &Vec<u32>) -> (r: Result<Vec<u8>, PdfError>)
    ensures
        if selected(self::page_order(graph(doc)), page_order@).len() == 0 {
            r matches Err(PdfError::Operation(text)) && text@ == nothing_selected_text()
        } else if !roomy(graph(doc)) {
            r matches Err(PdfError::Operation(text)) && text@ == exhausted_text()
        } else {
            match saved(reorder_graph(graph(doc), page_order@)) {
                Some(data) => r matches Ok(out) && out@ == data,
                None => r matches Err(PdfError::Io(_)),
            }
        },
{
    let out = match reorder_document(doc, page_order) {
        Ok(out) => out,
        Err(e) => {
            return Err(e);
        },
    };
    match save_document(out) {
        Ok(data) => Ok(data),
        Err(e) => Err(PdfError::Io(e)),
    }
}

/// What has been gathered from a list of documents: their objects, the
/// pages in the order of the merged document, and the number from which the
/// next document is renumbered.
pub struct Gathered {
    pub objects: Map<ObjectId, Node>,
    pub pages: Seq<ObjectId>,
    pub next: u32,
}

/// The values of a list of documents.
pub open spec fn graphs(docs: Seq<Document>) -> Seq<Graph> {
    docs.map_values(|d: Document| graph(d))
}

/// Gathers the documents one after the other: each is renumbered from where
/// the one before ended, its pages are added in ascending order of their new
/// identifiers, and its objects join the others.
pub open spec fn gathered(sources: Seq<Graph>) -> Gathered
    decreases sources.len(),
{
    if sources.len() == 0 {
        Gathered { objects: Map::empty(), pages: Seq::empty(), next: 1 }
    } else {
        let before = gathered(sources.drop_last());
        let source = renumbered(sources.last(), before.next);
        Gathered {
            objects: before.objects.union_prefer_right(source.objects),
            pages: before.pages + page_order(source),
            next: (source.max_id + 1) as u32,
        }
    }
}

/// The identifiers suffice for the documents: each has at most `i32::MAX`
/// objects, and the numbers of all of them, with four to spare, fit in 32
/// bits.
pub open spec fn mergeable(sources: Seq<Graph>) -> bool
    decreases sources.len(),
{
    sources.len() == 0 || (mergeable(sources.drop_last()) && sources.last().objects.len()
        <= i32::MAX && gathered(sources.drop_last()).next + sources.last().objects.len()
        <= u32::MAX - 4)
}

/// The document that holds what was gathered, before its page tree is built.
pub open spec fn gathered_graph(all: Gathered) -> Graph {
    Graph { objects: all.objects, max_id: all.next, ..empty_graph("1.5"@) }
}

/// The merged document: the pages of all sources in one flat page tree, and
/// nothing that they do not need.
pub open spec fn merged(sources: Seq<Graph>) -> Graph {
    pruned(rebuilt(gathered_graph(gathered(sources)), gathered(sources).pages))
}

/// The source that is gathered as the last of a list, renumbered from where
/// the sources before it ended.
pub open spec fn last_source(sources: Seq<Graph>) -> Graph
    recommends
        sources.len() > 0,
{
    renumbered(sources.last(), gathered(sources.drop_last()).next)
}

/// No two sources share an identifier once they are renumbered: none of
/// them takes the place of an object of another.
pub open spec fn apart(sources: Seq<Graph>) -> bool
    decreases sources.len(),
{
    sources.len() == 0 || (apart(sources.drop_last()) && forall|id: ObjectId|
        !(#[trigger] gathered(sources.drop_last()).objects.contains_key(id) && last_source(
            sources,
        ).objects.contains_key(id)))
}

/// One of the first `upto` items has the key `id`.
pub open spec fn covered(items: Seq<(ObjectId, Object)>, upto: int, id: ObjectId) -> bool {
    exists|j: int| 0 <= j < upto && (#[trigger] items[j]).0 == id
}

/// If the identifiers suffice for a list of documents, they suffice for the
/// first `upto` of them.
pub proof fn lemma_mergeable_prefix(sources: Seq<Graph>, upto: int)
    requires
        0 <= upto <= sources.len(),
    ensures
        mergeable(sources) ==> mergeable(sources.take(upto)),
    decreases sources.len(),
{
    if upto == sources.len() {
        assert(sources.take(upto) =~= sources);
    } else {
        lemma_mergeable_prefix(sources.drop_last(), upto);
        assert(sources.drop_last().take(upto) =~= sources.take(upto));
    }
}

/// Merges documents into one, in the order given: the pages of the first,
/// then those of the second, and so on. Documents whose objects outnumber
/// the identifiers are refused. Where the merge succeeds, the counter before
/// the rebuild leaves room for the new page tree, and no document has taken
/// the place of an object of another.
pub fn merge_documents(docs: Vec<Document>) -> (r: Result<Document, PdfError>)
    ensures
        match r {
            Ok(out) => mergeable(graphs(docs@)) && graph(out) == merged(graphs(docs@))
                && gathered(graphs(docs@)).next <= u32::MAX - 4 && graph(out).max_id
                <= u32::MAX - 2 && apart(graphs(docs@)) && ids_bounded(graph(out)) && page_list(
                graph(out),
            ) == Some(
                retained(gathered_graph(gathered(graphs(docs@))), gathered(graphs(docs@)).pages),
            ),
            Err(PdfError::Operation(text)) => !mergeable(graphs(docs@)) && text@
                == exhausted_text(),
            Err(_) => false,
        },
{
    let ghost sources = graphs(docs@);
    let mut result = new_document("1.5");
    let mut next: u32 = 1;
    let mut pages: Vec<ObjectId> = Vec::new();
    proof {
        assert(gathered(sources.take(0)).objects =~= graph(result).objects);
    }
    for doc in it: docs
        invariant
            it.seq() == docs@,
            sources == graphs(docs@),
            mergeable(sources.take(it.index() as int)),
            apart(sources.take(it.index() as int)),
            forall|id: ObjectId| #[trigger] graph(result).objects.contains_key(id) ==> id.0 < next,
            next == gathered(sources.take(it.index() as int)).next,
            pages@ == gathered(sources.take(it.index() as int)).pages,
            graph(result) == (Graph {
                objects: gathered(sources.take(it.index() as int)).objects,
                ..empty_graph("1.5"@)
            }),
            1 <= next <= u32::MAX - 4,
    {
        let ghost done = it.index() as int;
        let ghost source = sources[done];
        let ghost before = gathered(sources.take(done));
        proof {
            assert(sources.take(done + 1).drop_last() =~= sources.take(done));
            assert(sources.take(done + 1).last() == source);
            assert(source == graph(doc));
        }
        let mut doc = doc;
        let count = object_count(&doc);
        if count > 0x7fff_ffff || count > (u32::MAX - 4 - next) as usize {
            proof {
                assert(!mergeable(sources.take(done + 1)));
                lemma_mergeable_prefix(sources, done + 1);
            }
            return Err(exhausted());
        }
        if bookmark_count(&doc) != 0 {
            clear_bookmarks(&mut doc);
        }
        renumber(&mut doc, next);
        next = max_id(&doc) + 1;
        let mut doc_pages = sort_ids(&page_ids(&doc));
        pages.append(&mut doc_pages);
        let ghost table = graph(doc).objects;
        let ghost base = graph(result).objects;
        proof {
            assert(graph(doc) == last_source(sources.take(done + 1)));
            assert(apart(sources.take(done + 1)));
        }
        let items = into_objects(doc);
        for item in entries: items
            invariant
                entries.seq() == items@,
                lists(items@, table),
                graph(result) == (Graph { objects: graph(result).objects, ..empty_graph("1.5"@) }),
                forall|id: ObjectId| #[trigger]
                    graph(result).objects.contains_key(id) <==> base.contains_key(id) || covered(
                        items@,
                        entries.index() as int,
                        id,
                    ),
                forall|id: ObjectId| #[trigger]
                    graph(result).objects.contains_key(id) ==> graph(result).objects[id] == if covered(
                        items@,
                        entries.index() as int,
                        id,
                    ) {
                        table[id]
                    } else {
                        base[id]
                    },
        {
            let ghost at = entries.index() as int;
            let (id, object) = item;
            set_object(&mut result, id, object);
            proof {
                assert(items@[at].0 == id);
                assert forall|other: ObjectId| covered(items@, at + 1, other) <==> (covered(
                    items@,
                    at,
                    other,
                ) || other == id) by {
                    if covered(items@, at + 1, other) {
                        let j = choose|j: int| 0 <= j < at + 1 && (#[trigger] items@[j]).0 == other;
                        if j < at {
                            assert(covered(items@, at, other));
                        }
                    }
                    if covered(items@, at, other) {
                        let j = choose|j: int| 0 <= j < at && (#[trigger] items@[j]).0 == other;
                        assert(0 <= j < at + 1 && items@[j].0 == other);
                    }
                }
            }
        }
        proof {
            let all = items@.len() as int;
            assert forall|id: ObjectId| table.contains_key(id) <==> covered(items@, all, id) by {
                if covered(items@, all, id) {
                    let j = choose|j: int| 0 <= j < all && (#[trigger] items@[j]).0 == id;
                    assert(table.contains_key(items@[j].0));
                }
            }
            assert(graph(result).objects =~= base.union_prefer_right(table));
        }
    }
    proof {
        assert(sources.take(docs@.len() as int) =~= sources);
    }
    set_max_id(&mut result, next);
    proof {
        assert(graph(result) == gathered_graph(gathered(sources)));
        lemma_rebuilt_page_list(graph(result), pages@);
        lemma_rebuilt_parents(graph(result), pages@);
        lemma_pruned_bounded(rebuilt(graph(result), pages@));
    }
    rebuild(&mut result, &pages);
    prune(&mut result);
    Ok(result)
}

/// Merges documents, in the order given, and returns the bytes of the
/// merged document. Where the merge succeeds, the counter leaves room for
/// the new page tree, and no document has taken the place of an object of
/// another.
pub fn merge_pdf(documents: Vec<Document>) -> (r: Result<Vec<u8>, PdfError>)
    ensures
        if !mergeable(graphs(documents@)) {
            r matches Err(PdfError::Operation(text)) && text@ == exhausted_text()
        } else {
            &&& gathered(graphs(documents@)).next <= u32::MAX - 4
            &&& apart(graphs(documents@))
            &&& match saved(merged(graphs(documents@))) {
                Some(data) => r matches Ok(out) && out@ == data,
                None => r matches Err(PdfError::Io(_)),
            }
        },
{
    let out = match merge_documents(documents) {
        Ok(out) => out,
        Err(e) => {
            return Err(e);
        },
    };
    match save_document(out) {
        Ok(data) => Ok(data),
        Err(e) => Err(PdfError::Io(e)),
    }
}

/// A split leaves a document whose pages are the pages of the range that
/// resolve. Over a valid range whose pages all resolve these are the pages
/// of the range, in their order: as many as the range is long.
pub proof fn lemma_split_pages(g: Graph, start: u32, end: u32)
    requires
        g.max_id <= u32::MAX - 2,
    ensures
        page_list(split_graph(g, start, end)) == Some(retained(g, page_range(g, start, end))),
        range_fault(page_order(g).len(), start, end) is None && all_resolve(
            g,
            page_range(g, start, end),
        ) ==> page_list(split_graph(g, start, end)) == Some(page_range(g, start, end))
            && page_range(g, start, end).len() == end - start + 1,
        page_order(g).len() == page_walk(g).len(),
{
    let targets = page_range(g, start, end);
    lemma_rebuilt_page_list(g, targets);
    if all_resolve(g, targets) {
        lemma_retained_all(g, targets);
    }
    lemma_ascending(page_walk(g));
}

/// Where every number names a page, the selection has one page for each
/// number, at the place of the number.
pub proof fn lemma_selected_all(pages: Seq<ObjectId>, numbers: Seq<u32>)
    requires
        forall|k: int| 0 <= k < numbers.len() ==> 1 <= #[trigger] numbers[k] <= pages.len(),
    ensures
        selected(pages, numbers).len() == numbers.len(),
        forall|k: int|
            0 <= k < numbers.len() ==> #[trigger] selected(pages, numbers)[k] == pages[numbers[k]
                - 1],
    decreases numbers.len(),
{
    if numbers.len() > 0 {
        let front = numbers.drop_last();
        assert forall|k: int| 0 <= k < front.len() implies 1 <= #[trigger] front[k]
            <= pages.len() by {
            assert(front[k] == numbers[k]);
        }
        lemma_selected_all(pages, front);
        assert(1 <= numbers[numbers.len() - 1] <= pages.len());
        assert forall|k: int| 0 <= k < numbers.len() implies #[trigger] selected(
            pages,
            numbers,
        )[k] == pages[numbers[k] - 1] by {
            if k < front.len() {
                assert(front[k] == numbers[k]);
                assert(selected(pages, numbers)[k] == selected(pages, front)[k]);
            }
        }
    }
}

/// Every number of the list names a page of a document with `pages` pages.
pub open spec fn in_range(numbers: Seq<u32>, pages: nat) -> bool {
    forall|k: int| 0 <= k < numbers.len() ==> 1 <= #[trigger] numbers[k] <= pages
}

/// A reordering leaves a document whose pages are the selected pages that
/// resolve. Where every number names a page, the selection has, at each
/// place, the page that the number at that place names, so a page that is
/// named at two places is selected at both; and where the selected pages
/// all resolve, the selection is the page list of the result.
pub proof fn lemma_reorder_pages(g: Graph, numbers: Seq<u32>, first: int, second: int)
    requires
        g.max_id <= u32::MAX - 2,
        0 <= first < numbers.len(),
        0 <= second < numbers.len(),
        numbers[first] == numbers[second],
    ensures
        page_list(reorder_graph(g, numbers)) == Some(
            retained(g, selected(page_order(g), numbers)),
        ),
        in_range(numbers, page_order(g).len()) ==> {
            let chosen = selected(page_order(g), numbers);
            &&& chosen.len() == numbers.len()
            &&& forall|k: int|
                0 <= k < numbers.len() ==> #[trigger] chosen[k] == page_order(g)[numbers[k] - 1]
            &&& chosen[first] == chosen[second]
            &&& all_resolve(g, chosen) ==> page_list(reorder_graph(g, numbers)) == Some(chosen)
        },
{
    let pages = page_order(g);
    let targets = selected(pages, numbers);
    lemma_rebuilt_page_list(g, targets);
    if in_range(numbers, pages.len()) {
        lemma_selected_all(pages, numbers);
        if all_resolve(g, targets) {
            lemma_retained_all(g, targets);
        }
    }
}

/// The number of pages gathered from a list of documents: the sum of the
/// numbers of pages of the documents, each counted as it is renumbered.
pub open spec fn page_total(sources: Seq<Graph>) -> nat
    decreases sources.len(),
{
    if sources.len() == 0 {
        0
    } else {
        page_total(sources.drop_last()) + page_walk(
            renumbered(sources.last(), gathered(sources.drop_last()).next),
        ).len()
    }
}

/// The pages gathered are as many as the documents have together.
pub proof fn lemma_gathered_total(sources: Seq<Graph>)
    ensures
        gathered(sources).pages.len() == page_total(sources),
    decreases sources.len(),
{
    if sources.len() > 0 {
        lemma_gathered_total(sources.drop_last());
        lemma_ascending(
            page_walk(renumbered(sources.last(), gathered(sources.drop_last()).next)),
        );
    }
}

/// The pages gathered are those of the first document in their order,
/// then those of the second, and so on, as many as the documents have
/// together. Where the counter leaves room, the merged document has those
/// of them that resolve as its pages: all of them where all resolve.
pub proof fn lemma_merge_pages(sources: Seq<Graph>)
    ensures
        gathered(sources).pages.len() == page_total(sources),
        sources.len() > 0 ==> gathered(sources).pages == gathered(sources.drop_last()).pages
            + page_order(last_source(sources)),
        gathered(sources).next <= u32::MAX - 2 ==> page_list(merged(sources)) == Some(
            retained(gathered_graph(gathered(sources)), gathered(sources).pages),
        ),
        gathered(sources).next <= u32::MAX - 2 && all_resolve(
            gathered_graph(gathered(sources)),
            gathered(sources).pages,
        ) ==> page_list(merged(sources)) == Some(gathered(sources).pages),
{
    let all = gathered(sources);
    lemma_gathered_total(sources);
    if all.next <= u32::MAX - 2 {
        lemma_rebuilt_page_list(gathered_graph(all), all.pages);
        if all_resolve(gathered_graph(all), all.pages) {
            lemma_retained_all(gathered_graph(all), all.pages);
        }
    }
}

/// Where the sources are apart, the merge loses no object: what a source
/// holds once it is renumbered, the gathered table holds under the same
/// identifier.
pub proof fn lemma_gathered_keeps(sources: Seq<Graph>, upto: int, id: ObjectId)
    requires
        0 < upto <= sources.len(),
    ensures
        apart(sources) && last_source(sources.take(upto)).objects.contains_key(id) ==> gathered(
            sources,
        ).objects.contains_key(id) && gathered(sources).objects[id] == last_source(
            sources.take(upto),
        ).objects[id],
    decreases sources.len(),
{
    if apart(sources) && last_source(sources.take(upto)).objects.contains_key(id) {
        if upto == sources.len() {
            assert(sources.take(upto) =~= sources);
        } else {
            let front = sources.drop_last();
            assert(front.take(upto) =~= sources.take(upto));
            lemma_gathered_keeps(front, upto, id);
            assert(gathered(front).objects.contains_key(id));
        }
    }
}

/// Splitting leaves no reference dangling: where every reference in the
/// objects of a document resolves, every reference in the objects of the
/// split document resolves.
pub proof fn lemma_split_closed(g: Graph, start: u32, end: u32)
    requires
        g.max_id <= u32::MAX - 2,
        closed(g),
    ensures
        closed(split_graph(g, start, end)),
{
    lemma_rebuilt_closed(g, page_range(g, start, end));
}

/// Reordering leaves no reference dangling.
pub proof fn lemma_reorder_closed(g: Graph, numbers: Seq<u32>)
    requires
        g.max_id <= u32::MAX - 2,
        closed(g),
    ensures
        closed(reorder_graph(g, numbers)),
{
    lemma_rebuilt_closed(g, selected(page_order(g), numbers));
}

/// Merging leaves no reference dangling: where the counter leaves room and
/// every reference in the objects that were gathered resolves among them,
/// every reference in the objects of the merged document resolves.
pub proof fn lemma_merge_closed(sources: Seq<Graph>)
    ensures
        gathered(sources).next <= u32::MAX - 2 && closed(gathered_graph(gathered(sources)))
            ==> closed(merged(sources)),
{
    if gathered(sources).next <= u32::MAX - 2 && closed(gathered_graph(gathered(sources))) {
        lemma_rebuilt_closed(gathered_graph(gathered(sources)), gathered(sources).pages);
    }
}

} // verus!
