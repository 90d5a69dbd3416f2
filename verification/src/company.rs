//! The two company records: the raw record as it arrives from the regulatory
//! index, and the processed record that the directory store assembles.

use vstd::prelude::*;

verus! {

/// A raw company record from the regulatory filing index: one line of the
/// index file, split into its fixed-width columns.
pub struct Company {
    pub name: String,
    pub cik: Option<i32>,
    pub form_numbers: String,
    pub date: String,
    pub file_name: String,
}

impl Company {
    pub fn new(
        name: String,
        cik: Option<i32>,
        form_numbers: String,
        date: String,
        file_name: String,
    ) -> (c: Company)
        ensures
            c.name == name,
            c.cik == cik,
            c.form_numbers == form_numbers,
            c.date == date,
            c.file_name == file_name,
    {
        Company { name, cik, form_numbers, date, file_name }
    }
}

/// The full view of one stored company: its natural key, if any, and every
/// fact the store has attached to it.
pub struct ProcessedCompany {
    pub cik: Option<i32>,
    pub company_aliases: Vec<String>,
    pub websites: Option<Vec<String>>,
    pub career_page: Option<String>,
    pub tags: Option<Vec<String>>,
    pub has_captcha: Option<bool>,
}

impl ProcessedCompany {
    pub fn new(
        cik: Option<i32>,
        company_aliases: Vec<String>,
        websites: Option<Vec<String>>,
        career_page: Option<String>,
        tags: Option<Vec<String>>,
        has_captcha: Option<bool>,
    ) -> (c: ProcessedCompany)
        ensures
            c.cik == cik,
            c.company_aliases == company_aliases,
            c.websites == websites,
            c.career_page == career_page,
            c.tags == tags,
            c.has_captcha == has_captcha,
    {
        ProcessedCompany { cik, company_aliases, websites, career_page, tags, has_captcha }
    }

    /// The company's primary name: its first alias, if it has one.
    pub fn get_company_name(&self) -> (r: Option<&String>)
        ensures
            match r {
                Some(name) => self.company_aliases@.len() > 0 && name == self.company_aliases@[0],
                None => self.company_aliases@.len() == 0,
            },
    {
        if self.company_aliases.len() > 0 {
            Some(&self.company_aliases[0])
        } else {
            None
        }
    }
}

} // verus!
