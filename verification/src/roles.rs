use vstd::prelude::*;

verus! {

/// The role tag of a list item.
pub const ROLE_LIST_ITEM: u32 = 32;

/// The spoken name of a role tag; unknown tags read as invalid.
pub open spec fn spec_role_name(role: u32) -> Seq<char> {

    if role == 0 {
        "invalid"@
    } else if role == 1 {
        "accelerator label"@
    } else if role == 2 {
        "alert"@
    } else if role == 3 {
        "animation"@
    } else if role == 4 {
        "arrow"@
    } else if role == 5 {
        "calendar"@
    } else if role == 6 {
        "canvas"@
    } else if role == 7 {
        "check box"@
    } else if role == 8 {
        "check menu item"@
    } else if role == 9 {
        "color chooser"@
    } else if role == 10 {
        "column header"@
    } else if role == 11 {
        "combo box"@
    } else if role == 12 {
        "date editor"@
    } else if role == 13 {
        "desktop icon"@
    } else if role == 14 {
        "desktop frame"@
    } else if role == 15 {
        "dial"@
    } else if role == 16 {
        "dialog"@
    } else if role == 17 {
        "directory pane"@
    } else if role == 18 {
        "drawing area"@
    } else if role == 19 {
        "file chooser"@
    } else if role == 20 {
        "filler"@
    } else if role == 21 {
        "focus traversable"@
    } else if role == 22 {
        "font chooser"@
    } else if role == 23 {
        "frame"@
    } else if role == 24 {
        "glass pane"@
    } else if role == 25 {
        "html container"@
    } else if role == 26 {
        "icon"@
    } else if role == 27 {
        "image"@
    } else if role == 28 {
        "internal frame"@
    } else if role == 29 {
        "label"@
    } else if role == 30 {
        "layered pane"@
    } else if role == 31 {
        "list"@
    } else if role == 32 {
        "list item"@
    } else if role == 33 {
        "menu"@
    } else if role == 34 {
        "menu bar"@
    } else if role == 35 {
        "menu item"@
    } else if role == 36 {
        "option pane"@
    } else if role == 37 {
        "page tab"@
    } else if role == 38 {
        "page tab list"@
    } else if role == 39 {
        "panel"@
    } else if role == 40 {
        "password text"@
    } else if role == 41 {
        "popup menu"@
    } else if role == 42 {
        "progress bar"@
    } else if role == 43 {
        "button"@
    } else if role == 44 {
        "radio button"@
    } else if role == 45 {
        "radio menu item"@
    } else if role == 46 {
        "root pane"@
    } else if role == 47 {
        "row header"@
    } else if role == 48 {
        "scroll bar"@
    } else if role == 49 {
        "scroll pane"@
    } else if role == 50 {
        "separator"@
    } else if role == 51 {
        "slider"@
    } else if role == 52 {
        "spin button"@
    } else if role == 53 {
        "split pane"@
    } else if role == 54 {
        "status bar"@
    } else if role == 55 {
        "table"@
    } else if role == 56 {
        "table cell"@
    } else if role == 57 {
        "table column header"@
    } else if role == 58 {
        "table row header"@
    } else if role == 59 {
        "tearoff menu item"@
    } else if role == 60 {
        "terminal"@
    } else if role == 61 {
        "text"@
    } else if role == 62 {
        "toggle button"@
    } else if role == 63 {
        "tool bar"@
    } else if role == 64 {
        "tool tip"@
    } else if role == 65 {
        "tree"@
    } else if role == 66 {
        "tree table"@
    } else if role == 67 {
        "unknown"@
    } else if role == 68 {
        "viewport"@
    } else if role == 69 {
        "window"@
    } else if role == 70 {
        "extended"@
    } else if role == 71 {
        "header"@
    } else if role == 72 {
        "footer"@
    } else if role == 73 {
        "paragraph"@
    } else if role == 74 {
        "ruler"@
    } else if role == 75 {
        "application"@
    } else if role == 76 {
        "autocomplete"@
    } else if role == 77 {
        "editbar"@
    } else if role == 78 {
        "embedded"@
    } else if role == 79 {
        "entry"@
    } else if role == 80 {
        "chart"@
    } else if role == 81 {
        "caption"@
    } else if role == 82 {
        "document frame"@
    } else if role == 83 {
        "heading"@
    } else if role == 84 {
        "page"@
    } else if role == 85 {
        "section"@
    } else if role == 86 {
        "redundant object"@
    } else if role == 87 {
        "form"@
    } else if role == 88 {
        "link"@
    } else if role == 89 {
        "input method window"@
    } else if role == 90 {
        "table row"@
    } else if role == 91 {
        "tree item"@
    } else if role == 92 {
        "document spreadsheet"@
    } else if role == 93 {
        "document presentation"@
    } else if role == 94 {
        "document text"@
    } else if role == 95 {
        "document web"@
    } else if role == 96 {
        "document email"@
    } else if role == 97 {
        "comment"@
    } else if role == 98 {
        "list box"@
    } else if role == 99 {
        "grouping"@
    } else if role == 100 {
        "image map"@
    } else if role == 101 {
        "notification"@
    } else if role == 102 {
        "info bar"@
    } else if role == 103 {
        "level bar"@
    } else if role == 104 {
        "title bar"@
    } else if role == 105 {
        "block quote"@
    } else if role == 106 {
        "audio"@
    } else if role == 107 {
        "video"@
    } else if role == 108 {
        "definition"@
    } else if role == 109 {
        "article"@
    } else if role == 110 {
        "landmark"@
    } else if role == 111 {
        "log"@
    } else if role == 112 {
        "marquee"@
    } else if role == 113 {
        "math"@
    } else if role == 114 {
        "rating"@
    } else if role == 115 {
        "timer"@
    } else if role == 116 {
        "static"@
    } else if role == 117 {
        "math fraction"@
    } else if role == 118 {
        "math root"@
    } else if role == 119 {
        "subscript"@
    } else if role == 120 {
        "superscript"@
    } else if role == 121 {
        "description list"@
    } else if role == 122 {
        "description term"@
    } else if role == 123 {
        "description value"@
    } else if role == 124 {
        "footnote"@
    } else if role == 125 {
        "content deletion"@
    } else if role == 126 {
        "content insertion"@
    } else if role == 127 {
        "mark"@
    } else if role == 128 {
        "suggestion"@
    } else if role == 129 {
        "push button menu"@
    } else {
        "invalid"@
    }
}


/// The spoken name of a role tag, as the accessibility bus names it.
#[verifier::rlimit(100)]
#[verifier::spinoff_prover]
pub fn role_name(role: u32) -> (r: &'static str)
    ensures
        r@ == spec_role_name(role),
{

    if role == 0 {
        "invalid"
    } else if role == 1 {
        "accelerator label"
    } else if role == 2 {
        "alert"
    } else if role == 3 {
        "animation"
    } else if role == 4 {
        "arrow"
    } else if role == 5 {
        "calendar"
    } else if role == 6 {
        "canvas"
    } else if role == 7 {
        "check box"
    } else if role == 8 {
        "check menu item"
    } else if role == 9 {
        "color chooser"
    } else if role == 10 {
        "column header"
    } else if role == 11 {
        "combo box"
    } else if role == 12 {
        "date editor"
    } else if role == 13 {
        "desktop icon"
    } else if role == 14 {
        "desktop frame"
    } else if role == 15 {
        "dial"
    } else if role == 16 {
        "dialog"
    } else if role == 17 {
        "directory pane"
    } else if role == 18 {
        "drawing area"
    } else if role == 19 {
        "file chooser"
    } else if role == 20 {
        "filler"
    } else if role == 21 {
        "focus traversable"
    } else if role == 22 {
        "font chooser"
    } else if role == 23 {
        "frame"
    } else if role == 24 {
        "glass pane"
    } else if role == 25 {
        "html container"
    } else if role == 26 {
        "icon"
    } else if role == 27 {
        "image"
    } else if role == 28 {
        "internal frame"
    } else if role == 29 {
        "label"
    } else if role == 30 {
        "layered pane"
    } else if role == 31 {
        "list"
    } else if role == 32 {
        "list item"
    } else if role == 33 {
        "menu"
    } else if role == 34 {
        "menu bar"
    } else if role == 35 {
        "menu item"
    } else if role == 36 {
        "option pane"
    } else if role == 37 {
        "page tab"
    } else if role == 38 {
        "page tab list"
    } else if role == 39 {
        "panel"
    } else if role == 40 {
        "password text"
    } else if role == 41 {
        "popup menu"
    } else if role == 42 {
        "progress bar"
    } else if role == 43 {
        "button"
    } else if role == 44 {
        "radio button"
    } else if role == 45 {
        "radio menu item"
    } else if role == 46 {
        "root pane"
    } else if role == 47 {
        "row header"
    } else if role == 48 {
        "scroll bar"
    } else if role == 49 {
        "scroll pane"
    } else if role == 50 {
        "separator"
    } else if role == 51 {
        "slider"
    } else if role == 52 {
        "spin button"
    } else if role == 53 {
        "split pane"
    } else if role == 54 {
        "status bar"
    } else if role == 55 {
        "table"
    } else if role == 56 {
        "table cell"
    } else if role == 57 {
        "table column header"
    } else if role == 58 {
        "table row header"
    } else if role == 59 {
        "tearoff menu item"
    } else if role == 60 {
        "terminal"
    } else if role == 61 {
        "text"
    } else if role == 62 {
        "toggle button"
    } else if role == 63 {
        "tool bar"
    } else if role == 64 {
        "tool tip"
    } else if role == 65 {
        "tree"
    } else if role == 66 {
        "tree table"
    } else if role == 67 {
        "unknown"
    } else if role == 68 {
        "viewport"
    } else if role == 69 {
        "window"
    } else if role == 70 {
        "extended"
    } else if role == 71 {
        "header"
    } else if role == 72 {
        "footer"
    } else if role == 73 {
        "paragraph"
    } else if role == 74 {
        "ruler"
    } else if role == 75 {
        "application"
    } else if role == 76 {
        "autocomplete"
    } else if role == 77 {
        "editbar"
    } else if role == 78 {
        "embedded"
    } else if role == 79 {
        "entry"
    } else if role == 80 {
        "chart"
    } else if role == 81 {
        "caption"
    } else if role == 82 {
        "document frame"
    } else if role == 83 {
        "heading"
    } else if role == 84 {
        "page"
    } else if role == 85 {
        "section"
    } else if role == 86 {
        "redundant object"
    } else if role == 87 {
        "form"
    } else if role == 88 {
        "link"
    } else if role == 89 {
        "input method window"
    } else if role == 90 {
        "table row"
    } else if role == 91 {
        "tree item"
    } else if role == 92 {
        "document spreadsheet"
    } else if role == 93 {
        "document presentation"
    } else if role == 94 {
        "document text"
    } else if role == 95 {
        "document web"
    } else if role == 96 {
        "document email"
    } else if role == 97 {
        "comment"
    } else if role == 98 {
        "list box"
    } else if role == 99 {
        "grouping"
    } else if role == 100 {
        "image map"
    } else if role == 101 {
        "notification"
    } else if role == 102 {
        "info bar"
    } else if role == 103 {
        "level bar"
    } else if role == 104 {
        "title bar"
    } else if role == 105 {
        "block quote"
    } else if role == 106 {
        "audio"
    } else if role == 107 {
        "video"
    } else if role == 108 {
        "definition"
    } else if role == 109 {
        "article"
    } else if role == 110 {
        "landmark"
    } else if role == 111 {
        "log"
    } else if role == 112 {
        "marquee"
    } else if role == 113 {
        "math"
    } else if role == 114 {
        "rating"
    } else if role == 115 {
        "timer"
    } else if role == 116 {
        "static"
    } else if role == 117 {
        "math fraction"
    } else if role == 118 {
        "math root"
    } else if role == 119 {
        "subscript"
    } else if role == 120 {
        "superscript"
    } else if role == 121 {
        "description list"
    } else if role == 122 {
        "description term"
    } else if role == 123 {
        "description value"
    } else if role == 124 {
        "footnote"
    } else if role == 125 {
        "content deletion"
    } else if role == 126 {
        "content insertion"
    } else if role == 127 {
        "mark"
    } else if role == 128 {
        "suggestion"
    } else if role == 129 {
        "push button menu"
    } else {
        "invalid"
    }
}


/// Whether a role tag is a container role: a hint not to read the whole
/// subtree of such an item, only its name or description.
pub open spec fn spec_is_container_role(role: u32) -> bool {
    role == 2 || role == 6 || role == 14 || role == 16 || role == 20 || role == 23 || role == 30 || role == 31 || role == 33 || role == 34 || role == 38 || role == 39 || role == 49 || role == 55 || role == 63 || role == 64 || role == 65 || role == 66 || role == 68 || role == 71 || role == 72 || role == 73 || role == 75 || role == 82 || role == 85 || role == 87 || role == 95 || role == 99 || role == 109 || role == 110 || role == 119 || role == 120 || role == 124
}

/// Whether a role tag is a container role.
pub fn is_container_role(role: u32) -> (r: bool)
    ensures
        r == spec_is_container_role(role),
{
    role == 2 || role == 6 || role == 14 || role == 16 || role == 20 || role == 23 || role == 30 || role == 31 || role == 33 || role == 34 || role == 38 || role == 39 || role == 49 || role == 55 || role == 63 || role == 64 || role == 65 || role == 66 || role == 68 || role == 71 || role == 72 || role == 73 || role == 75 || role == 82 || role == 85 || role == 87 || role == 95 || role == 99 || role == 109 || role == 110 || role == 119 || role == 120 || role == 124
}

} // verus!
