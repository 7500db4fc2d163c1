use vstd::prelude::*;
use vstd::string::StringExecFns;
use crate::model::Node;
use crate::store::{nodes, object_node};
use lopdf::content::Operation;
use lopdf::Object;

verus! {

/// `lopdf::content::Operation`: an operator and its operands.
#[verifier::external_type_specification]
pub struct ExOperation(lopdf::content::Operation);

/// The text that `String::from_utf8_lossy` reads from bytes: valid UTF-8 as
/// it is, each invalid sequence as the replacement character.
pub uninterp spec fn utf8_lossy(bytes: Seq<u8>) -> Seq<char>;

/// The characters that count as white space: those with the Unicode
/// property White_Space.
pub open spec fn is_white_space(c: char) -> bool {
    let code = c as u32;
    ||| 0x09 <= code <= 0x0d
    ||| code == 0x20
    ||| code == 0x85
    ||| code == 0xa0
    ||| code == 0x1680
    ||| 0x2000 <= code <= 0x200a
    ||| code == 0x2028
    ||| code == 0x2029
    ||| code == 0x202f
    ||| code == 0x205f
    ||| code == 0x3000
}

/// A text without a character that is not white space.
pub open spec fn blank(text: Seq<char>) -> bool {
    forall|i: int| 0 <= i < text.len() ==> is_white_space(#[trigger] text[i])
}

/// An operation as its operator and the values of its operands.
pub open spec fn operation_view(op: Operation) -> (Seq<char>, Seq<Node>) {
    (op.operator@, nodes(op.operands@))
}

/// The operations of a list, each as its operator and the values of its
/// operands.
pub open spec fn operation_views(ops: Seq<Operation>) -> Seq<(Seq<char>, Seq<Node>)> {
    ops.map_values(|op: Operation| operation_view(op))
}

/// `Object::as_str`: the bytes of a string object, and nothing for any
/// other object.
#[verifier::external_body]
pub(crate) fn as_text(o: &Object) -> (r: Option<&[u8]>)
    ensures
        match object_node(*o) {
            Node::Text(bytes, _) => r is Some && r.unwrap()@ == bytes,
            _ => r is None,
        },
{
    o.as_str().ok()
}

/// `Object::as_array`: the items of an array object, and nothing for any
/// other object.
#[verifier::external_body]
pub(crate) fn as_array(o: &Object) -> (r: Option<&Vec<Object>>)
    ensures
        match object_node(*o) {
            Node::Array(items) => r is Some && nodes(r.unwrap()@) == items,
            _ => r is None,
        },
{
    o.as_array().ok()
}

/// `String::from_utf8_lossy`, as an owned string.
#[verifier::external_body]
pub(crate) fn lossy_text(bytes: &[u8]) -> (text: String)
    ensures
        text@ == utf8_lossy(bytes@),
{
    String::from_utf8_lossy(bytes).into_owned()
}

/// The text of an operand: of a string its characters, of an array the
/// texts of its items one after the other; no other operand has a text.
pub open spec fn text_of(node: Node) -> Option<Seq<char>>
    decreases node,
{
    match node {
        Node::Text(bytes, _) => Some(utf8_lossy(bytes)),
        Node::Array(items) => Some(texts_of(items)),
        _ => None,
    }
}

/// The texts of the operands that have one, joined in order.
pub open spec fn texts_of(items: Seq<Node>) -> Seq<char>
    decreases items,
{
    if items.len() == 0 {
        Seq::empty()
    } else {
        texts_of(items.drop_last()) + match text_of(items.last()) {
            Some(text) => text,
            None => Seq::empty(),
        }
    }
}

/// Whether an operator shows text.
pub open spec fn shows_text(operator: Seq<char>) -> bool {
    operator == "Tj"@ || operator == "TJ"@ || operator == "'"@ || operator == "\""@
}

/// What one operation adds to the text of its page: an operator that shows
/// text adds the texts of its operands, the end of a text object adds one
/// space, any other operator nothing.
pub open spec fn operation_text(op: (Seq<char>, Seq<Node>)) -> Seq<char> {
    if shows_text(op.0) {
        texts_of(op.1)
    } else if op.0 == "ET"@ {
        seq![' ']
    } else {
        Seq::empty()
    }
}

/// The text of a page, gathered from its operations in order.
pub open spec fn operations_text(ops: Seq<(Seq<char>, Seq<Node>)>) -> Seq<char>
    decreases ops.len(),
{
    if ops.len() == 0 {
        Seq::empty()
    } else {
        operations_text(ops.drop_last()) + operation_text(ops.last())
    }
}

/// The operations of a page. A page whose content could not be had or
/// does not parse counts as a page without operations.
pub open spec fn page_operations(page: Option<Vec<Operation>>) -> Seq<(Seq<char>, Seq<Node>)> {
    match page {
        Some(operations) => operation_views(operations@),
        None => Seq::empty(),
    }
}

/// The paragraphs of a document, given its pages in order: the text of each
/// page, without the pages whose text is blank.
pub open spec fn paragraphs(pages: Seq<Option<Vec<Operation>>>) -> Seq<Seq<char>>
    decreases pages.len(),
{
    if pages.len() == 0 {
        Seq::empty()
    } else {
        let before = paragraphs(pages.drop_last());
        let text = operations_text(page_operations(pages.last()));
        if blank(text) {
            before
        } else {
            before.push(text)
        }
    }
}

/// The views of a list of strings.
pub open spec fn texts(list: Seq<String>) -> Seq<Seq<char>> {
    list.map_values(|s: String| s@)
}

/// The text of an operand of a text-showing operator.
pub fn extract_text_from_object(obj: &Object) -> (r: Result<String, ()>)
    ensures
        match r {
            Ok(text) => text_of(object_node(*obj)) == Some(text@),
            Err(_) => text_of(object_node(*obj)) is None,
        },
    decreases object_node(*obj),
{
    if let Some(bytes) = as_text(obj) {
        return Ok(lossy_text(bytes));
    }
    if let Some(items) = as_array(obj) {
        let ghost list = object_node(*obj)->Array_0;
        let mut text = String::new();
        let mut i: usize = 0;
        proof {
            assert(list.take(0) =~= Seq::<Node>::empty());
        }
        while i < items.len()
            invariant
                0 <= i <= items.len(),
                object_node(*obj) == Node::Array(list),
                nodes(items@) == list,
                text@ == texts_of(list.take(i as int)),
            decreases items.len() - i,
        {
            proof {
                assert(list.take(i + 1).drop_last() =~= list.take(i as int));
                assert(list[i as int] == object_node(items@[i as int]));
                assert(decreases_to!(object_node(*obj) => object_node(*obj)->Array_0));
                assert(decreases_to!(list => list[i as int]));
            }
            if let Ok(part) = extract_text_from_object(&items[i]) {
                text.append(part.as_str());
            }
            i += 1;
        }
        proof {
            assert(list.take(items.len() as int) =~= list);
        }
        return Ok(text);
    }
    Err(())
}

/// The texts of the operands of one operation, joined in order.
fn operands_text(operands: &Vec<Object>) -> (text: String)
    ensures
        text@ == texts_of(nodes(operands@)),
{
    let ghost list = nodes(operands@);
    let mut text = String::new();
    let mut i: usize = 0;
    proof {
        assert(list.take(0) =~= Seq::<Node>::empty());
    }
    while i < operands.len()
        invariant
            0 <= i <= operands.len(),
            list == nodes(operands@),
            text@ == texts_of(list.take(i as int)),
        decreases operands.len() - i,
    {
        proof {
            assert(list.take(i + 1).drop_last() =~= list.take(i as int));
        }
        if let Ok(part) = extract_text_from_object(&operands[i]) {
            text.append(part.as_str());
        }
        i += 1;
    }
    proof {
        assert(list.take(operands.len() as int) =~= list);
    }
    text
}

/// Whether two texts are the same.
fn same_text(a: &String, b: &str) -> (r: bool)
    ensures
        r == (a@ == b@),
{
    let other = String::from_str(b);
    *a == other
}

/// The text of a page, gathered from its operations.
pub fn page_text(operations: &Vec<Operation>) -> (text: String)
    ensures
        text@ == operations_text(operation_views(operations@)),
{
    let ghost ops = operation_views(operations@);
    let mut text = String::new();
    let mut i: usize = 0;
    proof {
        assert(ops.take(0) =~= Seq::<(Seq<char>, Seq<Node>)>::empty());
    }
    while i < operations.len()
        invariant
            0 <= i <= operations.len(),
            ops == operation_views(operations@),
            text@ == operations_text(ops.take(i as int)),
        decreases operations.len() - i,
    {
        proof {
            assert(ops.take(i + 1).drop_last() =~= ops.take(i as int));
            reveal_strlit(" ");
            assert(" "@ =~= seq![' ']);
        }
        let operation = &operations[i];
        if same_text(&operation.operator, "Tj") || same_text(&operation.operator, "TJ")
            || same_text(&operation.operator, "'") || same_text(&operation.operator, "\"") {
            text.append(operands_text(&operation.operands).as_str());
        } else if same_text(&operation.operator, "ET") {
            text.append(" ");
        }
        i += 1;
    }
    proof {
        assert(ops.take(operations.len() as int) =~= ops);
    }
    text
}

/// Whether a character is white space.
fn is_white(c: char) -> (r: bool)
    ensures
        r == is_white_space(c),
{
    let code = c as u32;
    (0x09 <= code && code <= 0x0d) || code == 0x20 || code == 0x85 || code == 0xa0 || code
        == 0x1680 || (0x2000 <= code && code <= 0x200a) || code == 0x2028 || code == 0x2029
        || code == 0x202f || code == 0x205f || code == 0x3000
}

/// Whether a text holds nothing but white space: what is left of it when
/// the white space at its ends is trimmed away is empty.
pub fn is_blank(text: &str) -> (r: bool)
    ensures
        r == blank(text@),
{
    for c in it: text.chars()
        invariant
            it.seq() == text@,
            forall|i: int| 0 <= i < it.index() ==> is_white_space(#[trigger] text@[i]),
    {
        if !is_white(c) {
            return false;
        }
    }
    true
}

/// The paragraphs of the word-processor document of a document, given the
/// operations of its pages in order, `None` for a page whose content could
/// not be had or does not parse: the text of each page, unless it is blank.
pub fn pdf_to_word(pages: &Vec<Option<Vec<Operation>>>) -> (list: Vec<String>)
    ensures
        texts(list@) == paragraphs(pages@),
{
    let mut list: Vec<String> = Vec::new();
    let mut i: usize = 0;
    proof {
        assert(texts(list@) =~= paragraphs(pages@.take(0)));
    }
    while i < pages.len()
        invariant
            0 <= i <= pages.len(),
            texts(list@) == paragraphs(pages@.take(i as int)),
        decreases pages.len() - i,
    {
        proof {
            assert(pages@.take(i + 1).drop_last() =~= pages@.take(i as int));
        }
        let text = match &pages[i] {
            Some(operations) => page_text(operations),
            None => {
                proof {
                    let none = Seq::<(Seq<char>, Seq<Node>)>::empty();
                    assert(operations_text(none) =~= Seq::<char>::empty());
                }
                String::new()
            },
        };
        if !is_blank(text.as_str()) {
            let ghost before = list@;
            list.push(text);
            proof {
                assert(texts(before.push(text)) =~= texts(before).push(text@));
            }
        }
        i += 1;
    }
    proof {
        assert(pages@.take(pages.len() as int) =~= pages@);
    }
    list
}

} // verus!
