//! Lua values as they are read and displayed.

use crate::table::Key;
use crate::text::{copy, same_text, texts};
use vstd::prelude::*;

verus! {

/// The key of a Lua table.
#[derive(Debug, Clone, PartialEq, Eq)]
pub enum LuaTableKey {
    IntKey(u64),
    StringKey(String),
}

/// What a [`LuaTableKey`] stands for.
pub enum LuaTableKeyView {
    Int(u64),
    Text(Seq<char>),
}

impl View for LuaTableKey {
    type V = LuaTableKeyView;

    open spec fn view(&self) -> LuaTableKeyView {
        match self {
            LuaTableKey::IntKey(i) => LuaTableKeyView::Int(*i),
            LuaTableKey::StringKey(s) => LuaTableKeyView::Text(s@),
        }
    }
}

impl Key for LuaTableKey {
    fn same_key(&self, other: &Self) -> (r: bool) {
        match (self, other) {
            (LuaTableKey::IntKey(a), LuaTableKey::IntKey(b)) => *a == *b,
            (LuaTableKey::StringKey(a), LuaTableKey::StringKey(b)) => same_text(
                a.as_str(),
                b.as_str(),
            ),
            _ => false,
        }
    }
}

/// A Lua value to be displayed.
#[derive(Debug)]
pub enum DisplayLuaValue {
    String(String),
    List(Vec<DisplayLuaValue>),
    Table(Vec<DisplayLuaKV>),
}

/// A key and its value in a displayed Lua table.
#[derive(Debug)]
pub struct DisplayLuaKV {
    pub key: String,
    pub value: DisplayLuaValue,
}

/// The value is the string `text`.
pub open spec fn shows_text(value: DisplayLuaValue, text: Seq<char>) -> bool {
    value matches DisplayLuaValue::String(s) && s@ == text
}

/// The value is a list of the strings `all`.
pub open spec fn shows_list(value: DisplayLuaValue, all: Seq<Seq<char>>) -> bool {
    value matches DisplayLuaValue::List(list) && list@.len() == all.len() && forall|i: int|
        0 <= i < all.len() ==> #[trigger] shows_text(list@[i], all[i])
}

/// The displayed list of strings.
pub fn display_list(all: &Vec<String>) -> (r: DisplayLuaValue)
    ensures
        shows_list(r, texts(all@)),
{
    let mut list: Vec<DisplayLuaValue> = Vec::new();
    let mut i: usize = 0;
    while i < all.len()
        invariant
            i <= all@.len(),
            list@.len() == i,
            forall|k: int| 0 <= k < i ==> #[trigger] shows_text(list@[k], all@[k]@),
        decreases all@.len() - i,
    {
        list.push(DisplayLuaValue::String(copy(all[i].as_str())));
        i = i + 1;
    }
    let r = DisplayLuaValue::List(list);
    assert forall|k: int| 0 <= k < texts(all@).len() implies #[trigger] shows_text(
        list@[k],
        texts(all@)[k],
    ) by {
        assert(shows_text(list@[k], all@[k]@));
    }
    r
}

/// A list of strings is displayed with every string, in their order.
pub proof fn every_string_is_displayed(all: &Vec<String>, r: DisplayLuaValue, i: int)
    requires
        call_ensures(display_list, (all,), r),
    ensures
        r is List,
        r->List_0@.len() == all@.len(),
        0 <= i < all@.len() ==> r->List_0@[i] is String && r->List_0@[i]->String_0@ == all@[i]@,
{
    assert(texts(all@).len() == all@.len());
    if 0 <= i < all@.len() {
        assert(shows_text(r->List_0@[i], texts(all@)[i]));
    }
}

} // verus!
