use front::query::{line_col_of, offset_of_line_col};
use front::references::{binder_name_span, decl_name_span};
use front::span::{Pos, Span};

#[test]
fn line_col_round_trips_with_utf16_columns() {
    // 含多字节与 BMP 外字符（emoji 占 2 个 UTF-16 code unit）。
    let text = "abc\nαβ🙂x\nlast";
    for offset in 0..=text.len() {
        if !text.is_char_boundary(offset) {
            continue;
        }
        let (line, col) = line_col_of(text, offset);
        assert_eq!(
            offset_of_line_col(text, line, col),
            Some(offset),
            "round trip at offset {offset} ({line}:{col})"
        );
    }
    // 越界行 → None（调用方转成位置错误）。
    assert_eq!(offset_of_line_col(text, 99, 1), None);
    assert_eq!(offset_of_line_col(text, 0, 1), None);
}

#[test]
fn line_col_counts_utf16_units_not_bytes() {
    // `α` 是 2 字节、1 个 UTF-16 code unit ✓；`x` 在它后面。
    let doc = "def α : Prop := x\n";
    let x = doc.find('x').expect("夹具里有 x");
    assert_eq!(x, 17, "字节偏移（α 占 2 字节 ⇒ 比 code unit 多 1 ✓）");
    let (line, col) = line_col_of(doc, x);
    assert_eq!(line, 1);
    // 列按 **UTF-16**：`def α : Prop := ` 在 `x` 前有 16 个 code unit ⇒ 第 17 列 ✓
    assert_eq!(
        col, 17,
        "列必须是 UTF-16 code unit（LSP character 口径 ✓），不是字节 ✗"
    );
    // 更锋利的一条：**两个**多字节字符 ⇒ 两种口径的差距从 1 变 2 ✓
    let doc2 = "def αα : Prop := y\n";
    let y = doc2.find('y').expect("夹具里有 y");
    assert_eq!(y, 19, "字节偏移（两个 α ⇒ 多 2 ✓）");
    let (_, col2) = line_col_of(doc2, y);
    assert_eq!(col2, 18, "两个 α ⇒ UTF-16 列 18 ✓（字节口径会给 20 ✗）");
}

const DOC: &str = "def id : Prop -> Prop := fun (x : Prop) => x\n#check id\n";
// offsets: "def " 0..4, "id" 4..6, "(x : Prop)" 29..39, "x" 30..31,
// "#check " 45..52, final "id" 52..54.

fn span(start: usize, end: usize) -> Span {
    let (sl, sc) = line_col_of(DOC, start);
    let (el, ec) = line_col_of(DOC, end);
    Span {
        start: Pos {
            offset: start,
            line: sl,
            column: sc,
        },
        end: Pos {
            offset: end,
            line: el,
            column: ec,
        },
    }
}

#[test]
fn decl_name_span_covers_the_name_token() {
    let span = decl_name_span(DOC, span(0, 44), "id").expect("name token found");
    assert_eq!(&DOC[span.start.offset..span.end.offset], "id");
    assert_eq!(span.start.offset, 4);
    assert_eq!(span.end.offset, 6);
    assert_eq!((span.start.line, span.start.column), (1, 5));
}

#[test]
fn binder_name_span_is_the_first_ident() {
    let span = binder_name_span(DOC, span(29, 39)).expect("binder name found");
    assert_eq!(&DOC[span.start.offset..span.end.offset], "x");
    assert_eq!(span.start.offset, 30);
}
