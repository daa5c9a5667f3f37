//! The settings of a site.

use crate::text::copy_str;
use vstd::prelude::*;

verus! {

/// Where the server listens, and the password of its administrator.
#[derive(Debug)]
pub struct ServerConfig {
    pub host: String,
    pub port: u16,
    pub admin_password: String,
}

/// The paths that the site works with.
#[derive(Debug)]
pub struct PathConfig {
    /// The directory that holds the content.
    pub content_dir: String,
    pub generated_dir: String,
    pub static_dir: String,
    pub templates_dir: String,
    /// The database of comments.
    pub database_path: String,
    /// The database of pages and attachments.
    pub storage_database_path: String,
}

/// What the site says of itself.
#[derive(Debug)]
pub struct SiteConfig {
    pub title: String,
    pub description: String,
    pub url: String,
    pub author: String,
}

/// All settings.
#[derive(Debug)]
pub struct Config {
    pub server: ServerConfig,
    pub paths: PathConfig,
    pub site: SiteConfig,
}

impl Clone for ServerConfig {
    fn clone(&self) -> (out: Self)
        ensures
            out.host@ == self.host@,
            out.port == self.port,
            out.admin_password@ == self.admin_password@,
    {
        ServerConfig {
            host: self.host.clone(),
            port: self.port,
            admin_password: self.admin_password.clone(),
        }
    }
}

impl Clone for PathConfig {
    fn clone(&self) -> (out: Self)
        ensures
            out.content_dir@ == self.content_dir@,
            out.generated_dir@ == self.generated_dir@,
            out.static_dir@ == self.static_dir@,
            out.templates_dir@ == self.templates_dir@,
            out.database_path@ == self.database_path@,
            out.storage_database_path@ == self.storage_database_path@,
    {
        PathConfig {
            content_dir: self.content_dir.clone(),
            generated_dir: self.generated_dir.clone(),
            static_dir: self.static_dir.clone(),
            templates_dir: self.templates_dir.clone(),
            database_path: self.database_path.clone(),
            storage_database_path: self.storage_database_path.clone(),
        }
    }
}

impl Clone for SiteConfig {
    fn clone(&self) -> (out: Self)
        ensures
            out.title@ == self.title@,
            out.description@ == self.description@,
            out.url@ == self.url@,
            out.author@ == self.author@,
    {
        SiteConfig {
            title: self.title.clone(),
            description: self.description.clone(),
            url: self.url.clone(),
            author: self.author.clone(),
        }
    }
}

impl Clone for Config {
    fn clone(&self) -> (out: Self)
        ensures
            out.server.host@ == self.server.host@,
            out.server.port == self.server.port,
            out.server.admin_password@ == self.server.admin_password@,
            out.paths.content_dir@ == self.paths.content_dir@,
            out.paths.generated_dir@ == self.paths.generated_dir@,
            out.paths.static_dir@ == self.paths.static_dir@,
            out.paths.templates_dir@ == self.paths.templates_dir@,
            out.paths.database_path@ == self.paths.database_path@,
            out.paths.storage_database_path@ == self.paths.storage_database_path@,
            out.site.title@ == self.site.title@,
            out.site.description@ == self.site.description@,
            out.site.url@ == self.site.url@,
            out.site.author@ == self.site.author@,
    {
        Config { server: self.server.clone(), paths: self.paths.clone(), site: self.site.clone() }
    }
}

impl Default for Config {
    /// The settings of a site that sets nothing: a server on port 8080 of
    /// the local host, and paths below the working directory.
    fn default() -> (c: Self)
        ensures
            c.server.host@ == "127.0.0.1"@,
            c.server.port == 8080,
            c.server.admin_password@ == "admin"@,
            c.paths.content_dir@ == "content"@,
            c.paths.generated_dir@ == "generated"@,
            c.paths.static_dir@ == "static"@,
            c.paths.templates_dir@ == "templates"@,
            c.paths.database_path@ == "comments.db"@,
            c.paths.storage_database_path@ == "storage.db"@,
            c.site.title@ == "My Collections"@,
            c.site.description@ == "A blog about my collections"@,
            c.site.url@ == "http://localhost:8080"@,
            c.site.author@ == "xiaolinfeng"@,
    {
        Config {
            server: ServerConfig {
                host: copy_str("127.0.0.1"),
                port: 8080,
                admin_password: copy_str("admin"),
            },
            paths: PathConfig {
                content_dir: copy_str("content"),
                generated_dir: copy_str("generated"),
                static_dir: copy_str("static"),
                templates_dir: copy_str("templates"),
                database_path: copy_str("comments.db"),
                storage_database_path: copy_str("storage.db"),
            },
            site: SiteConfig {
                title: copy_str("My Collections"),
                description: copy_str("A blog about my collections"),
                url: copy_str("http://localhost:8080"),
                author: copy_str("xiaolinfeng"),
            },
        }
    }
}

/// Whether `password` is the password of the administrator.
pub fn verify_admin_password(config: &Config, password: &str) -> (ok: bool)
    ensures
        ok == (password@ == config.server.admin_password@),
{
    crate::text::str_eq(password, config.server.admin_password.as_str())
}

} // verus!
