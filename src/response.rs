use vstd::prelude::*;

verus! {

/// A response body: a message and the data it carries.
#[derive(Debug)]
pub struct ResponseBody<T> {
    pub message: String,
    pub data: T,
}

impl<T> ResponseBody<T> {
    pub fn new(message: &str, data: T) -> (r: ResponseBody<T>)
        ensures
            r.message@ == message@,
            r.data == data,
    {
        ResponseBody { message: message.to_owned(), data }
    }
}

/// One page of a listing, with its position in the whole.
#[derive(Debug)]
pub struct Page<T> {
    pub message: String,
    pub data: Vec<T>,
    pub page_num: i64,
    pub page_size: i64,
    pub total_elements: i64,
}

impl<T> Page<T> {
    pub fn new(message: &str, data: Vec<T>, page_num: i64, page_size: i64, total_elements: i64) -> (r:
        Page<T>)
        ensures
            r.message@ == message@,
            r.data@ == data@,
            r.page_num == page_num,
            r.page_size == page_size,
            r.total_elements == total_elements,
    {
        Page { message: message.to_owned(), data, page_num, page_size, total_elements }
    }
}

} // verus!
