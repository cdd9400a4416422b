//! Templated file contents generated for a new project: the default
//! landing page and the HTTP-server routing file that passes PHP
//! requests through to the project's runtime-tier service.

use vstd::prelude::*;

use crate::compose::php_name;
use crate::strutil::concat_strs;

verus! {

/// The default landing page of a fresh project, greeting with the
/// project's display name.
pub open spec fn index_php_text(name: Seq<char>) -> Seq<char> {
    "<?php\necho '<h1>Project: "@ + name
        + "</h1>';\necho '<p>PHP version: ' . phpversion() . '</p>';\n\n"@
}

/// Renders the default landing page for a project.
pub fn default_index_php(project_name: &str) -> (r: String)
    ensures
        r@ == index_php_text(project_name@),
{
    concat_strs(
        concat_strs("<?php\necho '<h1>Project: ", project_name).as_str(),
        "</h1>';\necho '<p>PHP version: ' . phpversion() . '</p>';\n\n",
    )
}

/// The HTTP-server routing file of a project: listen on port 80, serve
/// the document root, and hand PHP requests to the project's
/// runtime-tier service on its fixed internal port.
pub open spec fn nginx_config_text(slug: Seq<char>) -> Seq<char> {
    r#"server {
    listen 80;
    server_name localhost;
    root /var/www/html;
    index index.php index.html;

    location / {
        try_files $uri $uri/ /index.php?$query_string;
    }

    location ~ \.php$ {
        fastcgi_pass "#@ + php_name(slug)
        + r#":9000;
        fastcgi_index index.php;
        fastcgi_param SCRIPT_FILENAME $document_root$fastcgi_script_name;
        include fastcgi_params;
    }
}"#@
}

/// Renders the HTTP-server routing file for a project slug.
pub fn nginx_config_for(slug: &str) -> (r: String)
    ensures
        r@ == nginx_config_text(slug@),
{
    let head = r#"server {
    listen 80;
    server_name localhost;
    root /var/www/html;
    index index.php index.html;

    location / {
        try_files $uri $uri/ /index.php?$query_string;
    }

    location ~ \.php$ {
        fastcgi_pass "#;
    let tail = r#":9000;
        fastcgi_index index.php;
        fastcgi_param SCRIPT_FILENAME $document_root$fastcgi_script_name;
        include fastcgi_params;
    }
}"#;
    let r = concat_strs(
        concat_strs(concat_strs(head, "php_").as_str(), slug).as_str(),
        tail,
    );
    proof {
        assert(head@ + ("php_"@ + slug@) + tail@ =~= (head@ + "php_"@) + slug@ + tail@);
        assert(r@ =~= head@ + php_name(slug@) + tail@);
    }
    r
}

} // verus!
