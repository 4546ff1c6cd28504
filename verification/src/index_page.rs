//! The listing page of one directory of the index.

use vstd::prelude::*;
use vstd::utf8::encode_utf8;
use crate::index_pipe::{
    enters, first_slash, inside, lemma_first_slash, lemma_first_slash_is, plain_name, views, Index,
};
use crate::text::{from_chars, to_chars};

verus! {

/// What stands for one character in HTML text.
pub open spec fn escape_char(c: char) -> Seq<char> {
    if c == '&' {
        seq!['&', 'a', 'm', 'p', ';']
    } else if c == '<' {
        seq!['&', 'l', 't', ';']
    } else if c == '>' {
        seq!['&', 'g', 't', ';']
    } else {
        seq![c]
    }
}

/// `s` as HTML text.
pub open spec fn html_text(s: Seq<char>) -> Seq<char> {
    s.map_values(|c: char| escape_char(c)).flatten()
}

/// The bytes that a URL may hold as they are: letters, digits and `-._~`.
pub open spec fn is_unreserved(b: u8) -> bool {
    ||| 0x30 <= b <= 0x39
    ||| 0x41 <= b <= 0x5a
    ||| 0x61 <= b <= 0x7a
    ||| b == 0x2d
    ||| b == 0x2e
    ||| b == 0x5f
    ||| b == 0x7e
}

/// The upper-case hex digit for a value below 16.
pub open spec fn hex_upper(d: u8) -> char {
    if d < 10 {
        (0x30 + d) as u8 as char
    } else {
        (0x41 + d - 10) as u8 as char
    }
}

/// What stands for one byte in a URL.
pub open spec fn percent_byte(b: u8) -> Seq<char> {
    if is_unreserved(b) {
        seq![b as char]
    } else {
        seq!['%', hex_upper(b / 16), hex_upper(b % 16)]
    }
}

/// `s` as part of a URL: the bytes of its UTF-8 encoding, each percent-encoded
/// unless it is unreserved.
pub open spec fn url_encoded(s: Seq<char>) -> Seq<char> {
    encode_utf8(s).map_values(|b: u8| percent_byte(b)).flatten()
}

/// `encode_text` of the crate html-escape: it replaces `&`, `<` and `>` by
/// `&amp;`, `&lt;` and `&gt;` and keeps every other character.
#[verifier::external_body]
pub(crate) fn encode_text(text: &str) -> (r: String)
    ensures
        r@ == html_text(text@),
{
    html_escape::encode_text(text).into_owned()
}

/// `encode` of the crate urlencoding: it keeps the bytes of the text that
/// are ASCII letters, digits or one of `-._~`, and writes every other byte
/// as `%` and two upper-case hex digits.
#[verifier::external_body]
pub(crate) fn url_encode(text: &str) -> (r: String)
    ensures
        r@ == url_encoded(text@),
{
    urlencoding::encode(text).into_owned()
}

/// `rows`, with a line feed between each two.
pub open spec fn joined(rows: Seq<Seq<char>>) -> Seq<char>
    decreases rows.len(),
{
    if rows.len() == 0 {
        Seq::empty()
    } else if rows.len() == 1 {
        rows[0]
    } else {
        joined(rows.drop_last()) + seq!['\n'] + rows.last()
    }
}

pub fn join_lines(rows: &Vec<String>) -> (r: String)
    ensures
        r@ == joined(views(rows@)),
{
    let mut r = String::new();
    let n: usize = rows.len();
    let mut i: usize = 0;
    proof {
        assert(views(rows@).take(0) =~= Seq::<Seq<char>>::empty());
    }
    while i < n
        invariant
            i <= n,
            n == rows@.len(),
            r@ == joined(views(rows@).take(i as int)),
        decreases n - i,
    {
        if i > 0 {
            r.push('\n');
        }
        r.append(rows[i].as_str());
        proof {
            let done = views(rows@).take(i as int);
            let more = views(rows@).take(i + 1);
            assert(more.drop_last() =~= done);
            assert(more.last() == rows@[i as int]@);
            if i == 0 {
                assert(r@ =~= rows@[0]@);
            }
        }
        i += 1;
    }
    proof {
        assert(views(rows@).take(n as int) =~= views(rows@));
    }
    r
}

pub const NAV_ACTIVE_OPEN: &'static str = "<li class=\"breadcrumb-item active\" aria-current=\"page\">";

pub const NAV_LINK_OPEN: &'static str = "<li class=\"breadcrumb-item\"><a href=\"";

pub const NAV_LINK_MID: &'static str = "\">";

pub const NAV_LINK_CLOSE: &'static str = "</a></li>";

pub const NAV_ACTIVE_CLOSE: &'static str = "</li>";

pub const NAV_HEAD: &'static str = "\n<nav aria-label=\"breadcrumb\">\n    <ol class=\"breadcrumb\">\n        ";

pub const NAV_TAIL: &'static str = "\n    </ol>\n</nav>\n        ";

pub const UP: &'static str = "../";

/// `../`, `k` times.
pub open spec fn ups(k: nat) -> Seq<char>
    decreases k,
{
    if k == 0 {
        Seq::empty()
    } else {
        ups((k - 1) as nat) + UP@
    }
}

/// The entry of the navigation bar for `crumbs[i]`: the last one stands for
/// the page itself, each other links to the listing that many levels up.
pub open spec fn nav_item(crumbs: Seq<Seq<char>>, i: int, list_key: Seq<char>) -> Seq<char> {
    if i == crumbs.len() - 1 {
        NAV_ACTIVE_OPEN@ + html_text(crumbs[i]) + NAV_ACTIVE_CLOSE@
    } else {
        NAV_LINK_OPEN@ + ups((crumbs.len() - 1 - i) as nat) + list_key + NAV_LINK_MID@ + html_text(
            crumbs[i],
        ) + NAV_LINK_CLOSE@
    }
}

/// The navigation bar for the directory that `crumbs` leads to.
pub open spec fn navbar(crumbs: Seq<Seq<char>>, list_key: Seq<char>) -> Seq<char> {
    NAV_HEAD@ + joined(Seq::new(crumbs.len(), |i: int| nav_item(crumbs, i, list_key))) + NAV_TAIL@
}

pub fn repeat_up(k: usize) -> (r: String)
    ensures
        r@ == ups(k as nat),
{
    let mut r = String::new();
    let mut i: usize = 0;
    while i < k
        invariant
            i <= k,
            r@ == ups(i as nat),
        decreases k - i,
    {
        r.append(UP);
        i += 1;
    }
    r
}

pub const PAGE_HEAD: &'static str = "\n<!doctype html>\n<html>\n\n<head>\n    <meta charset=\"utf-8\">\n    <meta name=\"viewport\" content=\"width=device-width, initial-scale=1, shrink-to-fit=no\">\n    <link href=\"https://cdn.bootcdn.net/ajax/libs/twitter-bootstrap/4.5.3/css/bootstrap.min.css\" rel=\"stylesheet\">\n\n    <title>";

pub const PAGE_AFTER_TITLE: &'static str = " - SJTUG Mirror Index</title>\n</head>\n\n<body>\n    <div class=\"container mt-3\">\n        ";

pub const PAGE_AFTER_NAV: &'static str = "\n        <table class=\"table table-sm table-borderless\">\n            <tbody>\n                ";

pub const PAGE_AFTER_DATA: &'static str = "\n            </tbody>\n        </table>\n        <p class=\"small text-muted\">该页面由 mirror-clone 自动生成。<a href=\"https://github.com/sjtug/mirror-clone\">mirror-clone</a> 是 SJTUG 用于将软件源同步到对象存储的工具。</p>\n        <p class=\"small text-muted\">生成于 ";

pub const PAGE_TAIL: &'static str = "</p>\n    </div>\n</body>\n\n</html>";

pub const ROW_OPEN: &'static str = "<tr><td><a href=\"";

pub const ROW_MID: &'static str = "\">";

pub const ROW_CLOSE: &'static str = "</a></td></tr>";

pub const DIR_ROW_CLOSE: &'static str = "/</a></td></tr>";

pub const UP_NAME: &'static str = "..";

pub const SLASH: &'static str = "/";

pub const ROOT_TITLE: &'static str = "Root";

pub const LINE_FEED: &'static str = "\n";

/// The row that leads to the listing one level up.
pub open spec fn up_row(list_key: Seq<char>) -> Seq<char> {
    ROW_OPEN@ + UP@ + list_key + ROW_MID@ + UP_NAME@ + ROW_CLOSE@
}

/// The row that leads to the listing of the sub-directory `name`.
pub open spec fn dir_row(name: Seq<char>, list_key: Seq<char>) -> Seq<char> {
    ROW_OPEN@ + url_encoded(name) + SLASH@ + list_key + ROW_MID@ + html_text(name)
        + DIR_ROW_CLOSE@
}

/// The row that leads to the object `name`.
pub open spec fn object_row(name: Seq<char>) -> Seq<char> {
    ROW_OPEN@ + url_encoded(name) + ROW_MID@ + html_text(name) + ROW_CLOSE@
}

/// The title of a page: the name of its directory, or `Root`.
pub open spec fn page_title(crumbs: Seq<Seq<char>>) -> Seq<char> {
    if crumbs.len() == 0 {
        ROOT_TITLE@
    } else {
        html_text(crumbs.last())
    }
}

/// A page, put together from its parts.
pub open spec fn page_of(
    title: Seq<char>,
    nav: Seq<char>,
    data: Seq<char>,
    generated_at: Seq<char>,
) -> Seq<char> {
    PAGE_HEAD@ + title + PAGE_AFTER_TITLE@ + nav + PAGE_AFTER_NAV@ + data + PAGE_AFTER_DATA@
        + generated_at + PAGE_TAIL@
}

/// `crumbs` and one more.
pub fn extend_crumbs(breadcrumb: &Vec<String>, name: String) -> (r: Vec<String>)
    ensures
        views(r@) == views(breadcrumb@).push(name@),
{
    let mut r: Vec<String> = Vec::new();
    let n: usize = breadcrumb.len();
    let mut i: usize = 0;
    while i < n
        invariant
            i <= n,
            n == breadcrumb@.len(),
            r@.len() == i,
            views(r@) == views(breadcrumb@).take(i as int),
        decreases n - i,
    {
        let ghost before = r@;
        let item = breadcrumb[i].clone();
        r.push(item);
        proof {
            assert(views(before) == views(breadcrumb@).take(i as int));
            assert forall|j: int| 0 <= j < i + 1 implies views(r@)[j] == views(breadcrumb@).take(
                i + 1,
            )[j] by {
                if j < i {
                    assert(r@[j] == before[j]);
                    assert(views(before)[j] == views(breadcrumb@).take(i as int)[j]);
                }
            }
            assert(views(r@) =~= views(breadcrumb@).take(i + 1));
        }
        i += 1;
    }
    r.push(name);
    proof {
        assert(views(breadcrumb@).take(n as int) =~= views(breadcrumb@));
        assert(views(r@) =~= views(breadcrumb@).push(name@));
    }
    r
}

impl Index {
    /// The rows of the sub-directories, in the order of their names.
    pub open spec fn dir_rows(&self, list_key: Seq<char>) -> Seq<Seq<char>> {
        Seq::new(self.prefixes.len() as nat, |i: int| dir_row(self.prefixes[i].name@, list_key))
    }

    /// The rows of the objects, in the order of their names.
    pub open spec fn object_rows(&self) -> Seq<Seq<char>> {
        Seq::new(self.objects.len() as nat, |i: int| object_row(self.objects[i]@))
    }

    /// The rows of the table: the way up, the sub-directories, the objects.
    pub open spec fn table(&self, list_key: Seq<char>) -> Seq<char> {
        up_row(list_key) + joined(self.dir_rows(list_key)) + LINE_FEED@ + joined(
            self.object_rows(),
        )
    }

    /// The listing page of this directory.
    pub open spec fn page(
        &self,
        crumbs: Seq<Seq<char>>,
        list_key: Seq<char>,
        generated_at: Seq<char>,
    ) -> Seq<char> {
        page_of(page_title(crumbs), navbar(crumbs, list_key), self.table(list_key), generated_at)
    }

    /// Where the sub-directory `name` stands, if there is one.
    pub open spec fn child_index(&self, name: Seq<char>) -> int {
        choose|i: int| 0 <= i < self.prefixes.len() && (#[trigger] self.prefixes[i]).name@ == name
    }

    /// The listing page of the directory `prefix`, which is empty for this
    /// directory or names the way down, a slash after each name. There is
    /// none where the way leads to no directory of the tree.
    pub open spec fn page_for(
        &self,
        prefix: Seq<char>,
        crumbs: Seq<Seq<char>>,
        list_key: Seq<char>,
        generated_at: Seq<char>,
    ) -> Option<Seq<char>>
        decreases self,
    {
        let pos = first_slash(prefix);
        let name = prefix.take(pos);
        let i = self.child_index(name);
        if prefix.len() == 0 {
            Some(self.page(crumbs, list_key, generated_at))
        } else if pos < prefix.len() && 0 <= i < self.prefixes.len() && self.prefixes[i].name@
            == name {
            self.prefixes[i].index.page_for(
                prefix.skip(pos + 1),
                crumbs.push(name),
                list_key,
                generated_at,
            )
        } else {
            None
        }
    }

    /// Renders the listing page of this directory.
    fn render(&self, breadcrumb: &Vec<String>, list_key: &str, generated_at: &str) -> (r: String)
        ensures
            r@ == self.page(views(breadcrumb@), list_key@, generated_at@),
    {
        let ghost crumbs = views(breadcrumb@);
        let ghost lk = list_key@;
        let title = if breadcrumb.len() == 0 {
            String::from_str(ROOT_TITLE)
        } else {
            encode_text(breadcrumb[breadcrumb.len() - 1].as_str())
        };
        proof {
            if breadcrumb@.len() > 0 {
                assert(crumbs.last() == breadcrumb@[breadcrumb@.len() - 1]@);
            }
        }
        let nav = self.generate_navbar(breadcrumb, list_key);
        let mut dirs: Vec<String> = Vec::new();
        let n: usize = self.prefixes.len();
        let mut i: usize = 0;
        while i < n
            invariant
                i <= n,
                n == self.prefixes.len(),
                lk == list_key@,
                dirs@.len() == i,
                forall|j: int|
                    0 <= j < i ==> (#[trigger] dirs@[j])@ == dir_row(self.prefixes[j].name@, lk),
            decreases n - i,
        {
            let name = self.prefixes[i].name.as_str();
            let mut row = String::from_str(ROW_OPEN);
            row.append(url_encode(name).as_str());
            row.append(SLASH);
            row.append(list_key);
            row.append(ROW_MID);
            row.append(encode_text(name).as_str());
            row.append(DIR_ROW_CLOSE);
            dirs.push(row);
            i += 1;
        }
        let mut objects: Vec<String> = Vec::new();
        let m: usize = self.objects.len();
        let mut k: usize = 0;
        while k < m
            invariant
                k <= m,
                m == self.objects.len(),
                objects@.len() == k,
                forall|j: int| 0 <= j < k ==> (#[trigger] objects@[j])@ == object_row(self.objects[j]@),
            decreases m - k,
        {
            let name = self.objects[k].as_str();
            let mut row = String::from_str(ROW_OPEN);
            row.append(url_encode(name).as_str());
            row.append(ROW_MID);
            row.append(encode_text(name).as_str());
            row.append(ROW_CLOSE);
            objects.push(row);
            k += 1;
        }
        proof {
            assert(views(dirs@) =~= self.dir_rows(lk));
            assert(views(objects@) =~= self.object_rows());
        }
        let mut data = String::from_str(ROW_OPEN);
        data.append(UP);
        data.append(list_key);
        data.append(ROW_MID);
        data.append(UP_NAME);
        data.append(ROW_CLOSE);
        data.append(join_lines(&dirs).as_str());
        data.append(LINE_FEED);
        data.append(join_lines(&objects).as_str());
        let mut r = String::from_str(PAGE_HEAD);
        r.append(title.as_str());
        r.append(PAGE_AFTER_TITLE);
        r.append(nav.as_str());
        r.append(PAGE_AFTER_NAV);
        r.append(data.as_str());
        r.append(PAGE_AFTER_DATA);
        r.append(generated_at);
        r.append(PAGE_TAIL);
        r
    }

    fn index_for_chars(
        &self,
        chars: &Vec<char>,
        from: usize,
        breadcrumb: &Vec<String>,
        list_key: &str,
        generated_at: &str,
    ) -> (r: Option<String>)
        requires
            self.wf(),
            from <= chars@.len(),
        ensures
            r is Some == self.page_for(
                chars@.skip(from as int),
                views(breadcrumb@),
                list_key@,
                generated_at@,
            ) is Some,
            r matches Some(page) ==> Some(page@) == self.page_for(
                chars@.skip(from as int),
                views(breadcrumb@),
                list_key@,
                generated_at@,
            ),
        decreases self,
    {
        let ghost prefix = chars@.skip(from as int);
        let n: usize = chars.len();
        if from == n {
            return Some(self.render(breadcrumb, list_key, generated_at));
        }
        let mut pos: usize = from;
        while pos < n && chars[pos] != '/'
            invariant
                from <= pos <= n,
                n == chars@.len(),
                forall|i: int| from <= i < pos ==> chars@[i] != '/',
            decreases n - pos,
        {
            pos += 1;
        }
        proof {
            lemma_first_slash_is(prefix, pos - from);
        }
        if pos == n {
            return None;
        }
        let parent = from_chars(chars.as_slice(), from, pos);
        proof {
            assert(parent@ =~= prefix.take(pos - from));
            assert(chars@.skip(pos + 1) =~= prefix.skip(pos - from + 1));
        }
        let (at, found) = self.locate(parent.as_str());
        if !found {
            proof {
                let i = self.child_index(parent@);
                if 0 <= i < self.prefixes.len() && self.prefixes[i].name@ == parent@ {
                    if i < at {
                        crate::text::lemma_str_lt_irreflexive(parent@);
                    } else {
                        crate::text::lemma_str_lt_irreflexive(parent@);
                    }
                }
            }
            return None;
        }
        proof {
            let i = self.child_index(parent@);
            assert(self.prefixes[at as int].name@ == parent@);
            assert(0 <= i < self.prefixes.len() && self.prefixes[i].name@ == parent@);
            if i < at {
                crate::text::lemma_str_lt_irreflexive(parent@);
                assert(crate::text::str_lt(self.prefixes[i].name@, self.prefixes[at as int].name@));
            }
            if at < i {
                crate::text::lemma_str_lt_irreflexive(parent@);
                assert(crate::text::str_lt(self.prefixes[at as int].name@, self.prefixes[i].name@));
            }
        }
        let crumbs = extend_crumbs(breadcrumb, parent);
        self.prefixes[at].index.index_for_chars(chars, pos + 1, &crumbs, list_key, generated_at)
    }

    /// The listing page of the directory `prefix`, or `None` where the tree
    /// has no such directory. `breadcrumb` names the way to this directory,
    /// and `generated_at` is the time that the page shows.
    pub fn index_for(
        &self,
        prefix: &str,
        breadcrumb: &Vec<String>,
        list_key: &str,
        generated_at: &str,
    ) -> (r: Option<String>)
        requires
            self.wf(),
        ensures
            r is Some == self.page_for(prefix@, views(breadcrumb@), list_key@, generated_at@)
                is Some,
            r matches Some(page) ==> Some(page@) == self.page_for(
                prefix@,
                views(breadcrumb@),
                list_key@,
                generated_at@,
            ),
    {
        let chars = to_chars(prefix);
        proof {
            assert(chars@.skip(0) =~= prefix@);
        }
        self.index_for_chars(&chars, 0, breadcrumb, list_key, generated_at)
    }

    /// The navigation bar of a listing page: one entry for each directory
    /// on the way from the root, the last of them for the page itself.
    pub fn generate_navbar(&self, breadcrumb: &Vec<String>, list_key: &str) -> (r: String)
        ensures
            r@ == navbar(views(breadcrumb@), list_key@),
    {
        let ghost crumbs = views(breadcrumb@);
        let ghost lk = list_key@;
        let n: usize = breadcrumb.len();
        let mut items: Vec<String> = Vec::new();
        let mut i: usize = 0;
        while i < n
            invariant
                i <= n,
                n == breadcrumb@.len(),
                crumbs == views(breadcrumb@),
                lk == list_key@,
                items@.len() == i,
                forall|j: int| 0 <= j < i ==> (#[trigger] items@[j])@ == nav_item(crumbs, j, lk),
            decreases n - i,
        {
            let text = encode_text(breadcrumb[i].as_str());
            let mut item = String::new();
            if i == n - 1 {
                item.append(NAV_ACTIVE_OPEN);
                item.append(text.as_str());
                item.append(NAV_ACTIVE_CLOSE);
            } else {
                let up = repeat_up(n - 1 - i);
                item.append(NAV_LINK_OPEN);
                item.append(up.as_str());
                item.append(list_key);
                item.append(NAV_LINK_MID);
                item.append(text.as_str());
                item.append(NAV_LINK_CLOSE);
            }
            proof {
                assert(crumbs[i as int] == breadcrumb@[i as int]@);
                assert(item@ =~= nav_item(crumbs, i as int, lk));
            }
            items.push(item);
            i += 1;
        }
        let body = join_lines(&items);
        proof {
            assert(views(items@) =~= Seq::new(crumbs.len(), |i: int| nav_item(crumbs, i, lk)));
        }
        let mut r = String::from_str(NAV_HEAD);
        r.append(body.as_str());
        r.append(NAV_TAIL);
        r
    }
}

/// A tree has a listing page for exactly the directories that it holds.
pub proof fn lemma_page_iff_dir(
    index: Index,
    prefix: Seq<char>,
    crumbs: Seq<Seq<char>>,
    list_key: Seq<char>,
    generated_at: Seq<char>,
)
    requires
        index.wf(),
    ensures
        index.page_for(prefix, crumbs, list_key, generated_at) is Some <==> index.has_dir(prefix),
    decreases index,
{
    if prefix.len() > 0 {
        lemma_first_slash(prefix);
        let pos = first_slash(prefix);
        let name = prefix.take(pos);
        let at = index.child_index(name);
        if index.page_for(prefix, crumbs, list_key, generated_at) is Some {
            let child = index.prefixes[at];
            lemma_page_iff_dir(
                child.index,
                prefix.skip(pos + 1),
                crumbs.push(name),
                list_key,
                generated_at,
            );
            assert(enters(child.name@, prefix));
            assert(inside(child.name@, prefix) =~= prefix.skip(pos + 1));
        }
        if index.has_dir(prefix) {
            let i = choose|i: int|
                0 <= i < index.prefixes.len() && enters((#[trigger] index.prefixes[i]).name@, prefix)
                    && index.prefixes[i].index.has_dir(inside(index.prefixes[i].name@, prefix));
            let found = index.prefixes[i].name@;
            // the name ends at the first slash, for it holds none
            assert(plain_name(found));
            assert(found.len() == pos) by {
                if found.len() < pos {
                    assert(prefix[found.len() as int] == '/');
                }
                if found.len() > pos {
                    assert(prefix.take(found.len() as int)[pos] == found[pos]);
                }
            }
            assert(found =~= name);
            assert(0 <= at < index.prefixes.len() && index.prefixes[at].name@ == name);
            if at != i {
                if at < i {
                    assert(crate::text::str_lt(index.prefixes[at].name@, index.prefixes[i].name@));
                } else {
                    assert(crate::text::str_lt(index.prefixes[i].name@, index.prefixes[at].name@));
                }
                crate::text::lemma_str_lt_irreflexive(name);
            }
            lemma_page_iff_dir(
                index.prefixes[i].index,
                prefix.skip(pos + 1),
                crumbs.push(name),
                list_key,
                generated_at,
            );
            assert(inside(found, prefix) =~= prefix.skip(pos + 1));
        }
    }
}

} // verus!
